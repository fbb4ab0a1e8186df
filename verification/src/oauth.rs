//! The authorization-code flow's verifiable core.
//!
//! The flow itself is: build the authorization URL, open it in a browser,
//! run a loopback HTTP listener on the fixed port until the provider's
//! redirect delivers a `code` query parameter, then exchange that code at
//! the token endpoint. The pieces that live here are the URL construction,
//! the query-string grammar (splitting on `&`, the `code=` key, percent
//! decoding), and the listener's state machine; the surrounding program
//! runs the actual socket, browser and HTTP exchange around them.

use vstd::prelude::*;
use vstd::string::StringExecFns;

verus! {

/// The fixed loopback port the redirect URI points at.
pub const CALLBACK_PORT: u16 = 9524;

/// A byte string read as a percent-encoded form value: `%XY` hex escapes
/// become the escaped byte, `+` becomes a space, anything else stands for
/// itself. A truncated or non-hex escape makes the whole value undecodable.
pub open spec fn percent_decode(s: Seq<u8>) -> Option<Seq<u8>>
    decreases s.len(),
{
    if s.len() == 0 {
        Some(Seq::empty())
    } else if s[0] == 37 {
        // '%'
        if s.len() >= 3 && is_hex_digit(s[1]) && is_hex_digit(s[2]) {
            match percent_decode(s.skip(3)) {
                Some(rest) => Some(
                    seq![((hex_value_spec(s[1]) as int) * 16 + hex_value_spec(s[2]) as int) as u8]
                        + rest,
                ),
                None => None,
            }
        } else {
            None
        }
    } else if s[0] == 43 {
        // '+'
        match percent_decode(s.skip(1)) {
            Some(rest) => Some(seq![32u8] + rest),
            None => None,
        }
    } else {
        match percent_decode(s.skip(1)) {
            Some(rest) => Some(seq![s[0]] + rest),
            None => None,
        }
    }
}

/// An ASCII hexadecimal digit.
pub open spec fn is_hex_digit(b: u8) -> bool {
    (48 <= b && b <= 57) || (65 <= b && b <= 70) || (97 <= b && b <= 102)
}

/// The numeric value of an ASCII hexadecimal digit.
pub open spec fn hex_value_spec(b: u8) -> u8 {
    if 48 <= b && b <= 57 {
        (b - 48) as u8
    } else if 65 <= b && b <= 70 {
        (b - 55) as u8
    } else if 97 <= b && b <= 102 {
        (b - 87) as u8
    } else {
        0
    }
}

fn is_hex(b: u8) -> (r: bool)
    ensures
        r == is_hex_digit(b),
{
    (48 <= b && b <= 57) || (65 <= b && b <= 70) || (97 <= b && b <= 102)
}

fn hex_value(b: u8) -> (r: u8)
    requires
        is_hex_digit(b),
    ensures
        r == hex_value_spec(b),
        r <= 15,
{
    if b <= 57 {
        b - 48
    } else if b <= 70 {
        b - 55
    } else {
        b - 87
    }
}

/// The query string split on `&`; always at least one (possibly empty)
/// segment.
pub open spec fn split_amp(q: Seq<u8>) -> Seq<Seq<u8>>
    decreases q.len(),
{
    if q.len() == 0 {
        seq![Seq::empty()]
    } else if q[0] == 38 {
        // '&'
        seq![Seq::<u8>::empty()] + split_amp(q.skip(1))
    } else {
        let rest = split_amp(q.skip(1));
        seq![seq![q[0]] + rest[0]] + rest.skip(1)
    }
}

/// The bytes of `code=`.
pub open spec fn code_prefix() -> Seq<u8> {
    seq![99u8, 111u8, 100u8, 101u8, 61u8]
}

/// A parameter that binds the key `code`.
pub open spec fn is_code_param(p: Seq<u8>) -> bool {
    p.len() >= 5 && p.subrange(0, 5) == code_prefix()
}

/// The (still encoded) value of the first `code` parameter.
pub open spec fn first_code_param(params: Seq<Seq<u8>>) -> Option<Seq<u8>>
    decreases params.len(),
{
    if params.len() == 0 {
        None
    } else if is_code_param(params[0]) {
        Some(params[0].skip(5))
    } else {
        first_code_param(params.skip(1))
    }
}

/// The authorization code a raw query string carries: the percent-decoded
/// value of its first `code` parameter, or nothing when no such parameter
/// exists or its value is not decodable.
pub open spec fn spec_extract_code(q: Seq<u8>) -> Option<Seq<u8>> {
    match first_code_param(split_amp(q)) {
        Some(v) => percent_decode(v),
        None => None,
    }
}

/// The head segment of the split is the run before the first `&`, and the
/// remaining segments are the split of what follows it.
proof fn lemma_split_amp_head(q: Seq<u8>, a: int)
    requires
        0 <= a <= q.len(),
        forall|j: int| 0 <= j < a ==> q[j] != 38,
        a < q.len() ==> q[a] == 38,
    ensures
        split_amp(q).len() > 0,
        split_amp(q)[0] == q.subrange(0, a),
        a < q.len() ==> split_amp(q).skip(1) == split_amp(q.subrange(a + 1, q.len() as int)),
        a == q.len() ==> split_amp(q).len() == 1,
    decreases q.len(),
{
    if q.len() == 0 {
        assert(q.subrange(0, 0) =~= Seq::<u8>::empty());
    } else if q[0] == 38 {
        assert(a == 0);
        assert(q.subrange(0, 0) =~= Seq::<u8>::empty());
        assert(q.subrange(1, q.len() as int) =~= q.skip(1));
        assert((seq![Seq::<u8>::empty()] + split_amp(q.skip(1))).skip(1) =~= split_amp(
            q.skip(1),
        ));
    } else {
        assert(a >= 1);
        let t = q.skip(1);
        assert(forall|j: int| 0 <= j < a - 1 ==> t[j] == q[j + 1] && t[j] != 38);
        assert(a - 1 < t.len() ==> t[a - 1] == q[a]);
        lemma_split_amp_head(t, a - 1);
        let rest = split_amp(t);
        assert(split_amp(q) == seq![seq![q[0]] + rest[0]] + rest.skip(1));
        assert(seq![q[0]] + t.subrange(0, a - 1) =~= q.subrange(0, a));
        assert((seq![seq![q[0]] + rest[0]] + rest.skip(1))[0] == seq![q[0]] + rest[0]);
        assert(split_amp(q)[0] == q.subrange(0, a));
        assert((seq![seq![q[0]] + rest[0]] + rest.skip(1)).skip(1) =~= rest.skip(1));
        if a < q.len() {
            assert(t.subrange(a, t.len() as int) =~= q.subrange(a + 1, q.len() as int));
        }
    }
}

/// One step of scanning for the code parameter: with the first `&` at `a`,
/// the query's code is decided by the head parameter or found in the rest.
proof fn lemma_extract_step(q: Seq<u8>, a: int)
    requires
        0 <= a <= q.len(),
        forall|j: int| 0 <= j < a ==> q[j] != 38,
        a < q.len() ==> q[a] == 38,
    ensures
        is_code_param(q.subrange(0, a)) ==> spec_extract_code(q) == percent_decode(
            q.subrange(0, a).skip(5),
        ),
        !is_code_param(q.subrange(0, a)) && a == q.len() ==> spec_extract_code(q) is None,
        !is_code_param(q.subrange(0, a)) && a < q.len() ==> spec_extract_code(q)
            == spec_extract_code(q.subrange(a + 1, q.len() as int)),
{
    lemma_split_amp_head(q, a);
    let params = split_amp(q);
    let p = q.subrange(0, a);
    if is_code_param(p) {
        assert(first_code_param(params) == Some(p.skip(5)));
    } else if a == q.len() {
        assert(params.len() == 1);
        assert(first_code_param(params) == first_code_param(params.skip(1)));
        assert(params.skip(1).len() == 0);
    } else {
        let rest = q.subrange(a + 1, q.len() as int);
        assert(first_code_param(params) == first_code_param(params.skip(1)));
        assert(params.skip(1) == split_amp(rest));
    }
}

/// Percent-decodes the bytes of `q` between `from` and `to`.
fn percent_decode_range(q: &Vec<u8>, from: usize, to: usize) -> (r: Option<Vec<u8>>)
    requires
        from <= to <= q@.len(),
    ensures
        match r {
            Some(v) => percent_decode(q@.subrange(from as int, to as int)) == Some(v@),
            None => percent_decode(q@.subrange(from as int, to as int)) is None,
        },
{
    let ghost s = q@.subrange(from as int, to as int);
    let mut acc: Vec<u8> = Vec::new();
    let mut k: usize = from;
    proof {
        assert(s.skip(0) =~= s);
        if percent_decode(s) is Some {
            assert(acc@ + percent_decode(s)->Some_0 =~= percent_decode(s)->Some_0);
        }
    }
    while k < to
        invariant
            from <= k <= to <= q@.len(),
            s == q@.subrange(from as int, to as int),
            match percent_decode(s.skip(k - from)) {
                Some(rest) => percent_decode(s) == Some(acc@ + rest),
                None => percent_decode(s) is None,
            },
        decreases to - k,
    {
        let ghost pending = s.skip(k - from);
        proof {
            assert(pending[0] == q@[k as int]);
        }
        let c = q[k];
        if c == 37 {
            // '%'
            if to - k >= 3 {
                let h1 = q[k + 1];
                let h2 = q[k + 2];
                proof {
                    assert(pending[1] == q@[k + 1]);
                    assert(pending[2] == q@[k + 2]);
                }
                if is_hex(h1) && is_hex(h2) {
                    let ghost acc0 = acc@;
                    let decoded: u8 = hex_value(h1) * 16 + hex_value(h2);
                    acc.push(decoded);
                    proof {
                        assert(pending.skip(3) =~= s.skip(k - from + 3));
                        assert(acc@ =~= acc0 + seq![decoded]);
                        match percent_decode(s.skip(k - from + 3)) {
                            Some(rest) => {
                                assert(percent_decode(pending) == Some(seq![decoded] + rest));
                                assert(acc0 + (seq![decoded] + rest) =~= acc@ + rest);
                            },
                            None => {},
                        }
                    }
                    k = k + 3;
                } else {
                    proof {
                        assert(percent_decode(pending) is None);
                    }
                    return None;
                }
            } else {
                proof {
                    assert(pending.len() < 3);
                    assert(percent_decode(pending) is None);
                }
                return None;
            }
        } else {
            let ghost acc0 = acc@;
            let out: u8 = if c == 43 {
                // '+'
                32
            } else {
                c
            };
            acc.push(out);
            proof {
                assert(pending.skip(1) =~= s.skip(k - from + 1));
                assert(acc@ =~= acc0 + seq![out]);
                match percent_decode(s.skip(k - from + 1)) {
                    Some(rest) => {
                        assert(percent_decode(pending) == Some(seq![out] + rest));
                        assert(acc0 + (seq![out] + rest) =~= acc@ + rest);
                    },
                    None => {},
                }
            }
            k = k + 1;
        }
    }
    proof {
        assert(s.skip(to - from).len() == 0);
        assert(percent_decode(s.skip(to - from)) == Some(Seq::<u8>::empty()));
        assert(acc@ + Seq::<u8>::empty() =~= acc@);
    }
    Some(acc)
}

/// The authorization code carried by a raw query string, if any: the
/// percent-decoded value of the first `code` parameter.
pub fn extract_code(query: &Vec<u8>) -> (r: Option<Vec<u8>>)
    ensures
        match (r, spec_extract_code(query@)) {
            (Some(v), Some(s)) => v@ == s,
            (None, None) => true,
            _ => false,
        },
{
    let n = query.len();
    let mut i: usize = 0;
    proof {
        assert(query@.subrange(0, n as int) =~= query@);
    }
    while i <= n
        invariant
            i <= n,
            n == query@.len(),
            spec_extract_code(query@) == spec_extract_code(query@.subrange(i as int, n as int)),
        decreases n - i,
    {
        let ghost s = query@.subrange(i as int, n as int);
        // the current parameter ends at the next '&' or at the end
        let mut j: usize = i;
        while j < n && query[j] != 38
            invariant
                i <= j <= n,
                n == query@.len(),
                forall|m: int| i <= m < j ==> query@[m] != 38,
            decreases n - j,
        {
            j = j + 1;
        }
        proof {
            assert(forall|m: int| 0 <= m < j - i ==> s[m] == query@[m + i] && s[m] != 38);
            assert(j < n ==> s[j - i] == query@[j as int]);
            lemma_extract_step(s, j - i);
        }
        let ghost p = s.subrange(0, j - i);
        // does this parameter bind the key `code`?
        let mut is_code = false;
        if j - i >= 5 {
            if query[i] == 99 && query[i + 1] == 111 && query[i + 2] == 100 && query[i + 3]
                == 101 && query[i + 4] == 61 {
                is_code = true;
                proof {
                    assert(p.subrange(0, 5) =~= code_prefix());
                }
            } else {
                proof {
                    assert(p.subrange(0, 5) != code_prefix());
                }
            }
        }
        proof {
            assert(is_code == is_code_param(p));
        }
        if is_code {
            proof {
                assert(p.skip(5) =~= query@.subrange(i + 5, j as int));
            }
            return percent_decode_range(query, i + 5, j);
        }
        if j == n {
            return None;
        }
        proof {
            assert(s.subrange(j - i + 1, s.len() as int) =~= query@.subrange(
                j + 1,
                n as int,
            ));
        }
        i = j + 1;
    }
    proof {
        assert(false);
    }
    None
}

/// The URL that asks the provider to authorize this client: the fixed
/// authorization endpoint, the client id, the loopback redirect URI, and
/// the two playback scopes the application needs, assembled exactly.
pub open spec fn spec_authorize_url(client_id: Seq<char>) -> Seq<char> {
    "https://accounts.spotify.com/authorize?response_type=code&client_id="@ + client_id
        + "&redirect_uri=http%3A%2F%2Flocalhost%3A9524&scope=user-read-currently-playing%20user-modify-playback-state"@
}

/// Builds the browser authorization URL for a client id. The id is embedded
/// as it stands; provider client ids are plain hexadecimal, which needs no
/// escaping.
pub fn build_authorize_url(client_id: &String) -> (r: String)
    ensures
        r@ == spec_authorize_url(client_id@),
{
    let mut url = String::from_str(
        "https://accounts.spotify.com/authorize?response_type=code&client_id=",
    );
    url.append(client_id.as_str());
    url.append(
        "&redirect_uri=http%3A%2F%2Flocalhost%3A9524&scope=user-read-currently-playing%20user-modify-playback-state",
    );
    url
}

/// The loopback listener's state: waiting for the redirect, or holding the
/// code captured from the very first request that carried one.
///
/// Every request is answered with the same fixed body and a non-success
/// status, since no real resource is served. The surrounding program polls
/// the socket and asks [`CallbackListener::code`] after every poll; the
/// baseline design polls without a timeout, and a caller-supplied deadline
/// remains an open question.
pub struct CallbackListener {
    code: Option<Vec<u8>>,
}

impl View for CallbackListener {
    type V = Option<Seq<u8>>;

    closed spec fn view(&self) -> Option<Seq<u8>> {
        match self.code {
            Some(ref c) => Some(c@),
            None => None,
        }
    }
}

/// The fixed status code every callback request is answered with.
pub const CALLBACK_STATUS: u16 = 404;

/// The fixed plain-text body every callback request is answered with; the
/// listener serves no real resource.
pub const CALLBACK_BODY: &'static str = "Close me!";

impl CallbackListener {
    /// A listener that has not seen a code yet.
    pub fn new() -> (r: CallbackListener)
        ensures
            r@ is None,
    {
        CallbackListener { code: None }
    }

    /// Feeds one incoming request's raw query string to the listener: the
    /// first request that carries a decodable `code` parameter fixes the
    /// captured code, and every later request leaves it untouched. Returns
    /// the status code to answer with, which is always the same.
    pub fn on_request(&mut self, raw_query: &Vec<u8>) -> (status: u16)
        ensures
            status == CALLBACK_STATUS,
            old(self)@ is Some ==> final(self)@ == old(self)@,
            old(self)@ is None ==> final(self)@ == spec_extract_code(raw_query@),
    {
        if self.code.is_none() {
            self.code = extract_code(raw_query);
        }
        CALLBACK_STATUS
    }

    /// The captured authorization code, once one has arrived.
    pub fn code(&self) -> (r: Option<&Vec<u8>>)
        ensures
            match r {
                Some(c) => self@ == Some(c@),
                None => self@ is None,
            },
    {
        self.code.as_ref()
    }
}

} // verus!
