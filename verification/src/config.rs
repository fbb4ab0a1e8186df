//! The sealed store: every known client, its encrypted secret and token,
//! the shared nonce counter, the optional default client id, and the dirty
//! flag that decides whether the store is written back at the end of a run.
//!
//! The store is modelled as a map from client id to client record. The
//! backing representation is an association list with unique ids; the view
//! and every contract speak of the map.

use crate::crypto::{
    decrypt_spec, is_sealed, seal_with, Encrypted, EncryptedView, MasterKey, MAX_PLAINTEXT_LEN,
};
use crate::error::ApplicationError;
use crate::nonce::{advance_vec, all_max, be_value, NONCE_LEN};
use crate::token::{encode_token, decode_token, spec_decode_token, token_bytes, Token, TokenView};
use vstd::prelude::*;
use vstd::slice::slice_to_vec;

verus! {

/// One client's persisted record: the sealed secret, and the sealed token
/// once one has been obtained. A record with no token means "never
/// authorized or explicitly ejected".
pub struct ClientData {
    pub enc_secret: Encrypted,
    pub enc_token: Option<Encrypted>,
}

/// The mathematical shape of a [`ClientData`].
pub struct ClientDataView {
    pub enc_secret: EncryptedView,
    pub enc_token: Option<EncryptedView>,
}

impl View for ClientData {
    type V = ClientDataView;

    open spec fn view(&self) -> ClientDataView {
        ClientDataView {
            enc_secret: self.enc_secret@,
            enc_token: match self.enc_token {
                Some(b) => Some(b@),
                None => None,
            },
        }
    }
}

/// No two entries of the backing list carry the same client id.
pub open spec fn unique_ids(s: Seq<(String, ClientData)>) -> bool {
    forall|i: int, j: int| 0 <= i < j < s.len() ==> s[i].0@ != s[j].0@
}

/// The map an association list denotes; later entries win, though the store
/// keeps the ids unique so the case never arises.
pub open spec fn map_of(s: Seq<(String, ClientData)>) -> Map<Seq<char>, ClientDataView>
    decreases s.len(),
{
    if s.len() == 0 {
        Map::empty()
    } else {
        map_of(s.drop_last()).insert(s.last().0@, s.last().1@)
    }
}

/// A key is in the map exactly when some entry carries it.
pub proof fn lemma_map_of_contains(s: Seq<(String, ClientData)>, k: Seq<char>)
    ensures
        map_of(s).contains_key(k) <==> exists|i: int| 0 <= i < s.len() && s[i].0@ == k,
    decreases s.len(),
{
    if s.len() > 0 {
        lemma_map_of_contains(s.drop_last(), k);
        if map_of(s).contains_key(k) {
            if s.last().0@ == k {
                assert(s[s.len() - 1].0@ == k);
            } else {
                let i = choose|i: int| 0 <= i < s.drop_last().len() && s.drop_last()[i].0@ == k;
                assert(s[i].0@ == k);
            }
        }
        if exists|i: int| 0 <= i < s.len() && s[i].0@ == k {
            let i = choose|i: int| 0 <= i < s.len() && s[i].0@ == k;
            if i < s.len() - 1 {
                assert(s.drop_last()[i].0@ == k);
            }
        }
    }
}

/// With unique ids, the map sends each entry's id to that entry's record.
pub proof fn lemma_map_of_index(s: Seq<(String, ClientData)>, i: int)
    requires
        unique_ids(s),
        0 <= i < s.len(),
    ensures
        map_of(s).contains_key(s[i].0@),
        map_of(s)[s[i].0@] == s[i].1@,
    decreases s.len(),
{
    if i < s.len() - 1 {
        assert(unique_ids(s.drop_last()));
        assert(s.drop_last()[i] == s[i]);
        lemma_map_of_index(s.drop_last(), i);
        assert(s.last().0@ != s[i].0@);
    }
}

/// Removing one entry removes exactly that id from the map.
pub proof fn lemma_map_of_remove(s: Seq<(String, ClientData)>, i: int)
    requires
        unique_ids(s),
        0 <= i < s.len(),
    ensures
        unique_ids(s.remove(i)),
        map_of(s.remove(i)) =~= map_of(s).remove(s[i].0@),
    decreases s.len(),
{
    let t = s.remove(i);
    let k = s[i].0@;
    assert(forall|j: int| 0 <= j < i ==> t[j] == s[j]);
    assert(forall|j: int| i <= j < t.len() ==> t[j] == s[j + 1]);
    if i == s.len() - 1 {
        assert(t =~= s.drop_last());
        lemma_map_of_contains(s.drop_last(), k);
        assert(forall|j: int| 0 <= j < s.drop_last().len() ==> s.drop_last()[j].0@ != k);
        assert(!map_of(s.drop_last()).contains_key(k));
    } else {
        assert(unique_ids(s.drop_last()));
        assert(t.drop_last() =~= s.drop_last().remove(i));
        lemma_map_of_remove(s.drop_last(), i);
        assert(t.last() == s.last());
        assert(s.drop_last()[i] == s[i]);
        assert(s.last().0@ != k);
    }
}

/// Appending an entry with a fresh id extends the map at exactly that id.
pub proof fn lemma_map_of_push(s: Seq<(String, ClientData)>, e: (String, ClientData))
    requires
        unique_ids(s),
        forall|i: int| 0 <= i < s.len() ==> s[i].0@ != e.0@,
    ensures
        unique_ids(s.push(e)),
        map_of(s.push(e)) == map_of(s).insert(e.0@, e.1@),
{
    assert(s.push(e).drop_last() =~= s);
    assert(s.push(e).last() == e);
    assert(forall|i: int| 0 <= i < s.len() ==> s.push(e)[i] == s[i]);
}

/// The blob that sealing `plain` at `nonce` under `key` produces.
pub open spec fn sealed_blob(key: Seq<u8>, nonce: Seq<u8>, plain: Seq<u8>) -> EncryptedView {
    EncryptedView { nonce, data: crate::crypto::seal_of(key, nonce, plain) }
}

/// The plain content a record denotes under a key: the secret, and the
/// decoded token when one is stored; nothing when any seal fails to open or
/// the token frame is malformed.
pub open spec fn client_plain_of(key: Seq<u8>, d: ClientDataView) -> Option<
    (Seq<u8>, Option<TokenView>),
> {
    match decrypt_spec(key, d.enc_secret) {
        None => None,
        Some(secret) => match d.enc_token {
            None => Some((secret, None)),
            Some(blob) => match decrypt_spec(key, blob) {
                None => None,
                Some(frame) => match spec_decode_token(frame) {
                    None => None,
                    Some(t) => Some((secret, Some(t))),
                },
            },
        },
    }
}

/// The view of an optional token.
pub open spec fn opt_token_view(t: Option<Token>) -> Option<TokenView> {
    match t {
        Some(tok) => Some(tok@),
        None => None,
    }
}

/// The all-zero counter value of a store that has never sealed anything.
pub open spec fn zero_nonce() -> Seq<u8> {
    Seq::new(NONCE_LEN as nat, |i: int| 0u8)
}

/// The root persisted entity: the shared nonce counter, the optional
/// default client id, the client records, and the in-memory dirty flag.
pub struct Config {
    nonce: Vec<u8>,
    default: Option<String>,
    clients: Vec<(String, ClientData)>,
    dirty: bool,
}

/// The mathematical shape of a [`Config`].
pub struct ConfigView {
    pub nonce: Seq<u8>,
    pub default: Option<Seq<char>>,
    pub clients: Map<Seq<char>, ClientDataView>,
    pub dirty: bool,
}

impl View for Config {
    type V = ConfigView;

    closed spec fn view(&self) -> ConfigView {
        ConfigView {
            nonce: self.nonce@,
            default: match self.default {
                Some(ref s) => Some(s@),
                None => None,
            },
            clients: map_of(self.clients@),
            dirty: self.dirty,
        }
    }
}

/// What setting the default client does to the store's shape.
pub open spec fn spec_set_default(c: ConfigView, id: Seq<char>) -> ConfigView {
    ConfigView { default: Some(id), dirty: true, ..c }
}

/// Law: setting the same existing id as default twice is the same as
/// setting it once — the operation is idempotent.
pub proof fn lemma_set_default_idempotent(c: ConfigView, id: Seq<char>)
    ensures
        spec_set_default(spec_set_default(c, id), id) == spec_set_default(c, id),
{
}

impl Config {
    /// The nonce counter has the AEAD's width and the backing list keeps
    /// its ids unique.
    pub closed spec fn wf(&self) -> bool {
        &&& self.nonce@.len() == NONCE_LEN
        &&& unique_ids(self.clients@)
    }

    /// The backing list of records; abstract to the outside, where only the
    /// map view matters.
    pub closed spec fn entries(&self) -> Seq<(String, ClientData)> {
        self.clients@
    }

    /// The empty store of a first run: an all-zero nonce counter, no
    /// default, no clients, and nothing to write back.
    pub fn empty() -> (r: Config)
        ensures
            r.wf(),
            r@.nonce == zero_nonce(),
            r@.default is None,
            r@.clients == Map::<Seq<char>, ClientDataView>::empty(),
            !r@.dirty,
    {
        let nonce: Vec<u8> = vec![0; NONCE_LEN];
        proof {
            assert(nonce@ =~= zero_nonce());
        }
        Config { nonce, default: None, clients: Vec::new(), dirty: false }
    }

    /// Rebuilds a store from its persisted parts. A missing (empty) nonce
    /// field is the first run and becomes the all-zero counter; any other
    /// width than the AEAD's is malformed and is rejected. The rebuilt
    /// store is never dirty.
    pub fn from_parts(nonce: Vec<u8>, default: Option<String>, clients: Vec<(String, ClientData)>)
        -> (r: Result<Config, ApplicationError>)
        requires
            unique_ids(clients@),
        ensures
            match r {
                Ok(c) => {
                    &&& c.wf()
                    &&& (nonce@.len() == 0 ==> c@.nonce == zero_nonce())
                    &&& (nonce@.len() != 0 ==> c@.nonce == nonce@)
                    &&& nonce@.len() == 0 || nonce@.len() == NONCE_LEN
                    &&& c@.default == default.deep_view()
                    &&& c@.clients == map_of(clients@)
                    &&& !c@.dirty
                },
                Err(e) => {
                    &&& e == ApplicationError::CryptographyError
                    &&& nonce@.len() != 0 && nonce@.len() != NONCE_LEN
                },
            },
    {
        if nonce.len() == 0 {
            let zero: Vec<u8> = vec![0; NONCE_LEN];
            proof {
                assert(zero@ =~= zero_nonce());
            }
            Ok(Config { nonce: zero, default, clients, dirty: false })
        } else if nonce.len() == NONCE_LEN {
            Ok(Config { nonce, default, clients, dirty: false })
        } else {
            Err(ApplicationError::CryptographyError)
        }
    }

    /// Takes the store apart for persistence; the parts denote exactly the
    /// store's shape.
    pub fn into_parts(self) -> (r: (Vec<u8>, Option<String>, Vec<(String, ClientData)>))
        requires
            self.wf(),
        ensures
            r.0@ == self@.nonce,
            r.1.deep_view() == self@.default,
            unique_ids(r.2@),
            map_of(r.2@) == self@.clients,
    {
        let Config { nonce, default, clients, dirty: _ } = self;
        (nonce, default, clients)
    }

    /// Whether any mutation has happened since the store was loaded; only
    /// then is it written back to disk.
    pub fn is_dirty(&self) -> (r: bool)
        ensures
            r == self@.dirty,
    {
        self.dirty
    }

    /// The configured default client id, if any.
    pub fn default(&self) -> (r: Option<&String>)
        ensures
            match r {
                Some(s) => self@.default == Some(s@),
                None => self@.default is None,
            },
    {
        self.default.as_ref()
    }

    /// The index of the entry carrying `id`, if one does.
    fn find_index(&self, id: &String) -> (r: Option<usize>)
        ensures
            match r {
                Some(i) => i < self.clients@.len() && self.clients@[i as int].0@ == id@,
                None => forall|i: int| 0 <= i < self.clients@.len() ==> self.clients@[i].0@ != id@,
            },
    {
        let n = self.clients.len();
        let mut i: usize = 0;
        while i < n
            invariant
                i <= n,
                n == self.clients@.len(),
                forall|j: int| 0 <= j < i ==> self.clients@[j].0@ != id@,
            decreases n - i,
        {
            if self.clients[i].0 == *id {
                return Some(i);
            }
            i = i + 1;
        }
        None
    }

    /// Makes `id` the default client. Fails — leaving the store untouched —
    /// when no client carries that id: the default always references an
    /// existing client.
    pub fn set_default(&mut self, id: String) -> (r: Result<(), ApplicationError>)
        requires
            old(self).wf(),
        ensures
            final(self).wf(),
            r is Ok <==> old(self)@.clients.contains_key(id@),
            r is Ok ==> final(self)@ == spec_set_default(old(self)@, id@),
            r is Err ==> final(self)@ == old(self)@ && r == Err::<(), ApplicationError>(
                ApplicationError::UnknownClient,
            ),
    {
        proof {
            lemma_map_of_contains(self.clients@, id@);
        }
        match self.find_index(&id) {
            Some(_) => {
                self.dirty = true;
                self.default = Some(id);
                Ok(())
            },
            None => Err(ApplicationError::UnknownClient),
        }
    }

    /// Makes `id` the default client without requiring it to exist yet;
    /// used when the client itself is about to be added.
    pub fn set_default_force(&mut self, id: String)
        requires
            old(self).wf(),
        ensures
            final(self).wf(),
            final(self)@ == spec_set_default(old(self)@, id@),
    {
        self.dirty = true;
        self.default = Some(id);
    }

    /// Drops `id`'s record entirely. An unknown id changes nothing — the
    /// dirty flag tracks whether a mutation actually occurred.
    pub fn remove_client(&mut self, id: &String)
        requires
            old(self).wf(),
        ensures
            final(self).wf(),
            old(self)@.clients.contains_key(id@) ==> final(self)@ == (ConfigView {
                clients: old(self)@.clients.remove(id@),
                dirty: true,
                ..old(self)@
            }),
            !old(self)@.clients.contains_key(id@) ==> final(self)@ == old(self)@,
    {
        proof {
            lemma_map_of_contains(self.clients@, id@);
        }
        match self.find_index(id) {
            Some(i) => {
                proof {
                    lemma_map_of_remove(self.clients@, i as int);
                }
                self.dirty = true;
                self.clients.remove(i);
            },
            None => {},
        }
    }

    /// Drops `id`'s stored token, keeping the client itself; the record
    /// returns to "never authorized". An unknown id changes nothing — the
    /// dirty flag tracks whether a mutation actually occurred.
    pub fn eject_token(&mut self, id: &String)
        requires
            old(self).wf(),
        ensures
            final(self).wf(),
            final(self)@.nonce == old(self)@.nonce,
            final(self)@.default == old(self)@.default,
            old(self)@.clients.contains_key(id@) ==> final(self)@.dirty && final(self)@.clients
                == old(self)@.clients.insert(
                id@,
                (ClientDataView { enc_token: None, ..old(self)@.clients[id@] }),
            ),
            !old(self)@.clients.contains_key(id@) ==> final(self)@ == old(self)@,
    {
        proof {
            lemma_map_of_contains(self.clients@, id@);
        }
        match self.find_index(id) {
            Some(i) => {
                self.dirty = true;
                let ghost entries = self.clients@;
                proof {
                    lemma_map_of_index(entries, i as int);
                    lemma_map_of_remove(entries, i as int);
                }
                let mut e = self.clients.remove(i);
                e.1.enc_token = None;
                proof {
                    assert(forall|j: int|
                        0 <= j < self.clients@.len() ==> self.clients@[j].0@ != e.0@);
                    lemma_map_of_push(self.clients@, e);
                }
                self.clients.push(e);
                proof {
                    assert(map_of(self.clients@) =~= old(self)@.clients.insert(
                        id@,
                        (ClientDataView { enc_token: None, ..old(self)@.clients[id@] }),
                    ));
                }
            },
            None => {},
        }
    }

    /// Advances the shared nonce counter by one and hands back the new
    /// value; the successful advance is a mutation, so it marks the store
    /// dirty. Fails — the hard stop of an exhausted counter — when every
    /// byte is already at its maximum, and then leaves the store untouched:
    /// a failed operation persists no partial state.
    fn advance_nonce(&mut self) -> (r: Result<Vec<u8>, ApplicationError>)
        requires
            old(self).wf(),
        ensures
            final(self).wf(),
            final(self)@.default == old(self)@.default,
            final(self)@.clients == old(self)@.clients,
            final(self).entries() == old(self).entries(),
            r is Err <==> all_max(old(self)@.nonce),
            r is Err ==> final(self)@ == old(self)@ && r == Err::<
                Vec<u8>,
                ApplicationError,
            >(ApplicationError::CryptographyError),
            match r {
                Ok(n) => final(self)@.dirty && n@ == final(self)@.nonce && be_value(
                    final(self)@.nonce,
                ) == be_value(old(self)@.nonce) + 1,
                Err(_) => true,
            },
    {
        match advance_vec(&mut self.nonce) {
            Ok(()) => {
                self.dirty = true;
                Ok(slice_to_vec(self.nonce.as_slice()))
            },
            Err(e) => Err(e),
        }
    }

    /// Advances the counter and seals `plaintext` under the master key with
    /// the brand-new nonce; every sealed value in the store comes from
    /// here, so no two of them ever share a nonce. A successful seal marks
    /// the store dirty; an exhausted counter fails the operation and leaves
    /// the store exactly as it was.
    pub fn encrypt_and_store(&mut self, plaintext: &Vec<u8>, key: &MasterKey) -> (r: Result<
        Encrypted,
        ApplicationError,
    >)
        requires
            old(self).wf(),
            key.wf(),
            plaintext@.len() <= MAX_PLAINTEXT_LEN,
        ensures
            final(self).wf(),
            final(self)@.default == old(self)@.default,
            final(self)@.clients == old(self)@.clients,
            final(self).entries() == old(self).entries(),
            r is Err <==> all_max(old(self)@.nonce),
            r is Err ==> final(self)@ == old(self)@ && r == Err::<
                Encrypted,
                ApplicationError,
            >(ApplicationError::CryptographyError),
            match r {
                Ok(b) => {
                    &&& final(self)@.dirty
                    &&& b@ == sealed_blob(key@, final(self)@.nonce, plaintext@)
                    &&& is_sealed(key@, b@, plaintext@)
                    &&& be_value(final(self)@.nonce) == be_value(old(self)@.nonce) + 1
                },
                Err(_) => true,
            },
    {
        let nonce = match self.advance_nonce() {
            Ok(n) => n,
            Err(e) => {
                return Err(e);
            },
        };
        let data = seal_with(key, &nonce, plaintext);
        Ok(Encrypted { nonce, data })
    }

    /// Adds (or replaces) the client `id` with a freshly sealed secret and
    /// no token; the successful addition marks the store dirty. Fails only
    /// when the nonce counter is exhausted, and then leaves the store
    /// exactly as it was.
    pub fn add_client(&mut self, id: String, secret: Vec<u8>, key: &MasterKey) -> (r: Result<
        (),
        ApplicationError,
    >)
        requires
            old(self).wf(),
            key.wf(),
            secret@.len() <= MAX_PLAINTEXT_LEN,
        ensures
            final(self).wf(),
            final(self)@.default == old(self)@.default,
            r is Err <==> all_max(old(self)@.nonce),
            r is Err ==> final(self)@ == old(self)@ && r == Err::<(), ApplicationError>(
                ApplicationError::CryptographyError,
            ),
            r is Ok ==> {
                &&& final(self)@.dirty
                &&& be_value(final(self)@.nonce) == be_value(old(self)@.nonce) + 1
                &&& final(self)@.clients == old(self)@.clients.insert(
                    id@,
                    (ClientDataView {
                        enc_secret: sealed_blob(key@, final(self)@.nonce, secret@),
                        enc_token: None,
                    }),
                )
                &&& is_sealed(key@, sealed_blob(key@, final(self)@.nonce, secret@), secret@)
            },
    {
        let enc_secret = match self.encrypt_and_store(&secret, key) {
            Ok(b) => b,
            Err(e) => {
                return Err(e);
            },
        };
        let entry = (id, ClientData { enc_secret, enc_token: None });
        match self.find_index(&entry.0) {
            Some(i) => {
                let ghost entries = self.clients@;
                proof {
                    lemma_map_of_remove(entries, i as int);
                }
                self.clients.remove(i);
                proof {
                    assert(forall|j: int|
                        0 <= j < self.clients@.len() ==> self.clients@[j].0@ != entry.0@);
                    lemma_map_of_push(self.clients@, entry);
                }
                self.clients.push(entry);
                proof {
                    assert(map_of(self.clients@) =~= map_of(entries).insert(
                        entry.0@,
                        entry.1@,
                    ));
                }
            },
            None => {
                proof {
                    lemma_map_of_push(self.clients@, entry);
                }
                self.clients.push(entry);
            },
        }
        Ok(())
    }

    /// Seals `token` under a fresh nonce and stores it on the client `id`;
    /// the successful write marks the store dirty. An unknown id is
    /// tolerated but changes nothing at all, and a failed seal (exhausted
    /// counter) leaves the store exactly as it was.
    pub fn set_token(&mut self, id: &String, token: &Token, key: &MasterKey) -> (r: Result<
        (),
        ApplicationError,
    >)
        requires
            old(self).wf(),
            key.wf(),
            token.wf(),
        ensures
            final(self).wf(),
            final(self)@.default == old(self)@.default,
            !old(self)@.clients.contains_key(id@) ==> r is Ok && final(self)@ == old(self)@,
            old(self)@.clients.contains_key(id@) ==> {
                &&& (r is Err <==> all_max(old(self)@.nonce))
                &&& r is Err ==> final(self)@ == old(self)@ && r == Err::<(), ApplicationError>(
                    ApplicationError::CryptographyError,
                )
                &&& r is Ok ==> (final(self)@.dirty && be_value(final(self)@.nonce) == be_value(
                    old(self)@.nonce,
                ) + 1 && final(self)@.clients == old(self)@.clients.insert(
                        id@,
                        (ClientDataView {
                            enc_secret: old(self)@.clients[id@].enc_secret,
                            enc_token: Some(
                                sealed_blob(key@, final(self)@.nonce, token_bytes(token@)),
                            ),
                        }),
                    )
                    && is_sealed(
                        key@,
                        sealed_blob(key@, final(self)@.nonce, token_bytes(token@)),
                        token_bytes(token@),
                    ))
            },
    {
        proof {
            lemma_map_of_contains(self.clients@, id@);
        }
        if self.find_index(id).is_none() {
            return Ok(());
        }
        let frame = encode_token(token);
        let enc_token = match self.encrypt_and_store(&frame, key) {
            Ok(b) => b,
            Err(e) => {
                return Err(e);
            },
        };
        proof {
            lemma_map_of_contains(self.clients@, id@);
        }
        match self.find_index(id) {
            Some(i) => {
                let ghost entries = self.clients@;
                proof {
                    lemma_map_of_index(entries, i as int);
                    lemma_map_of_remove(entries, i as int);
                }
                let mut e = self.clients.remove(i);
                e.1.enc_token = Some(enc_token);
                proof {
                    assert(forall|j: int|
                        0 <= j < self.clients@.len() ==> self.clients@[j].0@ != e.0@);
                    lemma_map_of_push(self.clients@, e);
                }
                self.clients.push(e);
                proof {
                    assert(map_of(self.clients@) =~= old(self)@.clients.insert(
                        id@,
                        (ClientDataView {
                            enc_secret: old(self)@.clients[id@].enc_secret,
                            enc_token: Some(enc_token@),
                        }),
                    ));
                }
                Ok(())
            },
            None => {
                proof {
                    assert(false);
                }
                Err(ApplicationError::UnknownClient)
            },
        }
    }

    /// Opens the client `id`'s record under the master key: the plain
    /// secret and, when one is stored, the decoded token. An unknown id
    /// yields nothing; a seal that fails to open or a malformed token frame
    /// is a cryptography error, never different data.
    pub fn get_client_data(&self, id: &String, key: &MasterKey) -> (r: Option<
        Result<(Vec<u8>, Option<Token>), ApplicationError>,
    >)
        requires
            self.wf(),
            key.wf(),
        ensures
            r is None <==> !self@.clients.contains_key(id@),
            match r {
                None => true,
                Some(Ok(pair)) => client_plain_of(key@, self@.clients[id@]) == Some(
                    (pair.0@, opt_token_view(pair.1)),
                ),
                Some(Err(e)) => client_plain_of(key@, self@.clients[id@]) is None && e
                    == ApplicationError::CryptographyError,
            },
    {
        proof {
            lemma_map_of_contains(self.clients@, id@);
        }
        match self.find_index(id) {
            None => None,
            Some(i) => {
                proof {
                    lemma_map_of_index(self.clients@, i as int);
                }
                let data = &self.clients[i].1;
                let secret = match data.enc_secret.decrypt(key) {
                    Ok(p) => p,
                    Err(e) => {
                        return Some(Err(e));
                    },
                };
                match &data.enc_token {
                    None => Some(Ok((secret, None))),
                    Some(blob) => match blob.decrypt(key) {
                        Err(e) => Some(Err(e)),
                        Ok(frame) => match decode_token(&frame) {
                            Some(t) => Some(Ok((secret, Some(t)))),
                            None => Some(Err(ApplicationError::CryptographyError)),
                        },
                    },
                }
            },
        }
    }

    /// Lists every client id once, each with whether a token is stored for
    /// it.
    pub fn clients(&self) -> (r: Vec<(String, bool)>)
        requires
            self.wf(),
        ensures
            forall|j: int|
                0 <= j < r@.len() ==> #[trigger] self@.clients.contains_key(r@[j].0@) && (r@[j].1
                    <==> self@.clients[r@[j].0@].enc_token is Some),
            forall|k: Seq<char>|
                #[trigger] self@.clients.contains_key(k) ==> exists|j: int|
                    0 <= j < r@.len() && r@[j].0@ == k,
            forall|i: int, j: int| 0 <= i < j < r@.len() ==> r@[i].0@ != r@[j].0@,
    {
        let n = self.clients.len();
        let mut out: Vec<(String, bool)> = Vec::new();
        let mut i: usize = 0;
        while i < n
            invariant
                i <= n,
                n == self.clients@.len(),
                self.wf(),
                out@.len() == i,
                forall|j: int|
                    0 <= j < i ==> out@[j].0@ == self.clients@[j].0@ && (out@[j].1
                        <==> self.clients@[j].1.enc_token is Some),
            decreases n - i,
        {
            let id = self.clients[i].0.clone();
            let has_token = self.clients[i].1.enc_token.is_some();
            out.push((id, has_token));
            i = i + 1;
        }
        proof {
            assert forall|j: int|
                0 <= j < out@.len() implies #[trigger] self@.clients.contains_key(out@[j].0@) && (
            out@[j].1 <==> self@.clients[out@[j].0@].enc_token is Some) by {
                lemma_map_of_index(self.clients@, j);
            }
            assert forall|k: Seq<char>| #[trigger]
                self@.clients.contains_key(k) implies exists|j: int|
                0 <= j < out@.len() && out@[j].0@ == k by {
                lemma_map_of_contains(self.clients@, k);
                let j = choose|j: int| 0 <= j < self.clients@.len() && self.clients@[j].0@ == k;
                assert(out@[j].0@ == k);
            }
        }
        out
    }
}

/// Law: a record whose secret and token were sealed under a key opens under
/// that key to exactly the sealed secret and the sealed token — storing and
/// reading back lose nothing.
pub proof fn lemma_stored_record_reads_back(
    key: Seq<u8>,
    d: ClientDataView,
    secret: Seq<u8>,
    t: TokenView,
)
    requires
        is_sealed(key, d.enc_secret, secret),
        d.enc_token matches Some(b) && is_sealed(key, b, token_bytes(t)),
        t.wf(),
    ensures
        client_plain_of(key, d) == Some((secret, Some(t))),
{
    crate::crypto::lemma_encrypt_decrypt_round_trip(key, d.enc_secret, secret);
    let b = d.enc_token->Some_0;
    crate::crypto::lemma_encrypt_decrypt_round_trip(key, b, token_bytes(t));
    crate::token::lemma_token_codec_round_trip(t);
}

/// Law: two sealed values drawn from the store in succession never share a
/// nonce — each draw raises the counter's value by one, and byte strings
/// with different values are different strings — so they are different
/// blobs.
pub proof fn lemma_successive_seals_distinct(
    n0: Seq<u8>,
    b1: EncryptedView,
    b2: EncryptedView,
)
    requires
        be_value(b1.nonce) == be_value(n0) + 1,
        be_value(b2.nonce) == be_value(b1.nonce) + 1,
    ensures
        b1.nonce != b2.nonce,
        b1 != b2,
{
    crate::nonce::lemma_distinct_values_distinct_nonces(b1.nonce, b2.nonce);
}

} // verus!
