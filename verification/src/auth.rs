//! Device authentication.
//!
//! Shared secret token `Authorization: Device <terminal_id>:<token>` where
//! token = hex(sha256(secret || terminal_id bytes || dog_id bytes)).
use crate::protocol::{be_bytes, uuid_hyphenated, uuid_parse, uuid_bytes, DogId, TerminalId};
use crate::text::{chars_of, hex_digit, hex_lower, string_from_chars};
use sha2::Digest;
use vstd::prelude::*;
use vstd::string::StringExecFns;

verus! {

/// What `sha2::Sha256::digest` returns on a byte sequence.
pub uninterp spec fn sha256_digest(data: Seq<u8>) -> Seq<u8>;

/// SHA-256 of `data` (`sha2::Sha256::digest`): a 32-byte digest.
#[verifier::external_body]
fn sha256(data: &[u8]) -> (r: Vec<u8>)
    ensures
        r@ == sha256_digest(data@),
        r@.len() == 32,
{
    sha2::Sha256::digest(data).to_vec()
}

/// `hex::encode`: two lowercase hexadecimal digits per byte, in order.
#[verifier::external_body]
fn hex_encode(bytes: &[u8]) -> (s: String)
    ensures
        s@ == hex_lower(bytes@),
{
    hex::encode(bytes)
}

/// Why a device is refused.
#[derive(Debug, Clone, Copy, PartialEq, Eq, Structural)]
pub enum AuthError {
    Missing,
    Malformed,
    Invalid,
}

impl AuthError {
    /// The message text of an error, as characters.
    pub open spec fn text(self) -> Seq<char> {
        match self {
            AuthError::Missing => "missing authorization"@,
            AuthError::Malformed => "malformed authorization"@,
            AuthError::Invalid => "unknown or invalid device credentials"@,
        }
    }

    /// The message text of the error.
    pub fn message(&self) -> (r: &'static str)
        ensures
            r@ == self.text(),
    {
        match self {
            AuthError::Missing => "missing authorization",
            AuthError::Malformed => "malformed authorization",
            AuthError::Invalid => "unknown or invalid device credentials",
        }
    }
}

/// A terminal's credentials.
#[derive(Debug, Clone)]
pub struct DeviceIdentity {
    pub terminal_id: TerminalId,
    pub dog_id: DogId,
    pub token: String,
}

/// The token of a terminal bound to a dog under a secret.
pub open spec fn spec_token(secret: Seq<char>, terminal_id: TerminalId, dog_id: DogId) -> Seq<char> {
    hex_lower(
        sha256_digest(
            vstd::utf8::encode_utf8(secret) + be_bytes(terminal_id.0) + be_bytes(dog_id.0),
        ),
    )
}

/// The outcome of checking `token` for a terminal and dog under `secret`.
pub open spec fn spec_verify_pair(secret: Seq<char>, terminal_id: TerminalId, dog_id: DogId, token: Seq<char>) -> Result<(), AuthError> {
    if token == spec_token(secret, terminal_id, dog_id) {
        Ok(())
    } else {
        Err(AuthError::Invalid)
    }
}

/// A token issued for a terminal and dog passes the check for that pair.
pub proof fn lemma_issued_token_verifies(secret: Seq<char>, terminal_id: TerminalId, dog_id: DogId)
    ensures
        spec_verify_pair(secret, terminal_id, dog_id, spec_token(secret, terminal_id, dog_id))
            == Ok::<(), AuthError>(()),
{
}

/// The text of the authorization header a terminal sends.
pub open spec fn auth_header_text(terminal_id: TerminalId, token: Seq<char>) -> Seq<char> {
    "Device "@ + uuid_hyphenated(terminal_id.0) + ":"@ + token
}

/// Index of the first `':'` in `s`, if any.
pub open spec fn first_colon(s: Seq<char>) -> Option<int> {
    if exists|i: int| 0 <= i < s.len() && s[i] == ':' {
        Some(choose|i: int| 0 <= i < s.len() && s[i] == ':' && forall|j: int| 0 <= j < i ==> s[j] != ':')
    } else {
        None
    }
}

/// What reading an authorization header gives: the terminal id before the
/// first `':'` after the `"Device "` prefix, and the token after it; the dog
/// is left nil.
pub open spec fn spec_verify_header(h: Seq<char>) -> Result<(TerminalId, DogId, Seq<char>), AuthError> {
    match split_header(h) {
        None => Err(AuthError::Malformed),
        Some((tid, token)) => match uuid_parse(tid) {
            None => Err(AuthError::Malformed),
            Some(v) => Ok((TerminalId(v), DogId(0), token)),
        },
    }
}

/// The terminal id text and the token of a header: after the `"Device "`
/// prefix, the text before the first `':'` and the text after it.
pub open spec fn split_header(h: Seq<char>) -> Option<(Seq<char>, Seq<char>)> {
    if h.len() < 7 || h.take(7) != "Device "@ {
        None
    } else {
        let rest = h.skip(7);
        match first_colon(rest) {
            None => None,
            Some(i) => Some((rest.take(i), rest.skip(i + 1))),
        }
    }
}

/// Split a header into terminal id text and token (see `split_header`).
fn split_device_header(h: &Vec<char>) -> (r: Option<(Vec<char>, Vec<char>)>)
    ensures
        match (r, split_header(h@)) {
            (Some((a, b)), Some((x, y))) => a@ == x && b@ == y,
            (None, None) => true,
            _ => false,
        },
{
    let prefix = chars_of("Device ");
        proof {
            reveal_strlit("Device ");
            assert("Device "@.len() == 7);
        }
        if h.len() < 7 {
            return None;
        }
        let mut i: usize = 0;
        while i < 7
            invariant
                i <= 7,
                h@.len() >= 7,
                prefix@ == "Device "@,
                prefix@.len() == 7,
                forall|j: int| 0 <= j < i ==> h@[j] == prefix@[j],
            decreases 7 - i,
        {
            if h[i] != prefix[i] {
                assert(h@.take(7)[i as int] != "Device "@[i as int]);
                assert(h@.take(7) != "Device "@);
                return None;
            }
            i = i + 1;
        }
        assert(h@.take(7) =~= "Device "@);
        let ghost rest = h@.skip(7);
        let mut c: usize = 7;
        while c < h.len() && h[c] != ':'
            invariant
                7 <= c <= h@.len(),
                forall|j: int| 7 <= j < c ==> h@[j] != ':',
            decreases h@.len() - c,
        {
            c = c + 1;
        }
        if c == h.len() {
            assert forall|j: int| 0 <= j < rest.len() implies rest[j] != ':' by {
                assert(rest[j] == h@[j + 7]);
            }
            return None;
        }
        proof {
            let k = (c - 7) as int;
            assert(rest[k] == ':');
            let f = choose|i: int|
                0 <= i < rest.len() && rest[i] == ':' && forall|j: int| 0 <= j < i ==> rest[j] != ':';
            assert(rest[f] == ':');
            if f < k {
                assert(h@[f + 7] == ':');
            }
            if k < f {
                assert(rest[k] != ':');
            }
            assert(first_colon(rest) == Some(k));
        }
        let mut tid_chars: Vec<char> = Vec::new();
        let mut j: usize = 7;
        while j < c
            invariant
                7 <= j <= c < h@.len(),
                tid_chars@ == h@.subrange(7, j as int),
            decreases c - j,
        {
            tid_chars.push(h[j]);
            j = j + 1;
            assert(tid_chars@ =~= h@.subrange(7, j as int));
        }
        let mut tok_chars: Vec<char> = Vec::new();
        let mut j: usize = c + 1;
        while j < h.len()
            invariant
                c < j <= h@.len(),
                tok_chars@ == h@.subrange(c + 1, j as int),
            decreases h@.len() - j,
        {
            tok_chars.push(h[j]);
            j = j + 1;
            assert(tok_chars@ =~= h@.subrange(c + 1, j as int));
        }
        assert(tid_chars@ =~= rest.take((c - 7) as int));
        assert(tok_chars@ =~= rest.skip((c - 7) as int + 1));
        Some((tid_chars, tok_chars))
}

/// Read an authorization header `"Device <terminal_id>:<token>"` into the
/// terminal id and the token (see `spec_verify_header`).
pub fn read_device_header(header: &str) -> (r: Result<(TerminalId, String), AuthError>)
    ensures
        match (r, spec_verify_header(header@)) {
            (Ok((t, tok)), Ok((t2, _, tok2))) => t == t2 && tok@ == tok2,
            (Err(e), Err(f)) => e == f,
            _ => false,
        },
{
    let h = chars_of(header);
    let (tid_chars, tok_chars) = match split_device_header(&h) {
        None => {
            return Err(AuthError::Malformed);
        },
        Some(parts) => parts,
    };
    let tid_text = string_from_chars(&tid_chars);
    match TerminalId::parse(tid_text.as_str()) {
        None => Err(AuthError::Malformed),
        Some(terminal_id) => Ok((terminal_id, string_from_chars(&tok_chars))),
    }
}

/// Issues and checks device tokens from a shared secret.
#[derive(Debug, Clone)]
pub struct SharedSecretAuthority {
    secret: String,
}

impl SharedSecretAuthority {
    /// The shared secret.
    pub closed spec fn secret(&self) -> Seq<char> {
        self.secret@
    }

    pub fn new(secret: &str) -> (r: Self)
        ensures
            r.secret() == secret@,
    {
        SharedSecretAuthority { secret: String::from_str(secret) }
    }

    pub fn issue(&self, terminal_id: TerminalId, dog_id: DogId) -> (r: DeviceIdentity)
        ensures
            r.terminal_id == terminal_id,
            r.dog_id == dog_id,
            r.token@ == spec_token(self.secret(), terminal_id, dog_id),
            r.token@.len() == 64,
    {
        let token = self.token_for(terminal_id, dog_id);
        DeviceIdentity { terminal_id, dog_id, token }
    }

    pub fn token_for(&self, terminal_id: TerminalId, dog_id: DogId) -> (r: String)
        ensures
            r@ == spec_token(self.secret(), terminal_id, dog_id),
            r@.len() == 64,
    {
        let mut data: Vec<u8> = Vec::new();
        let secret_bytes = self.secret.as_str().as_bytes();
        data.extend_from_slice(secret_bytes);
        let t = uuid_bytes(terminal_id.0);
        data.extend_from_slice(t.as_slice());
        let d = uuid_bytes(dog_id.0);
        data.extend_from_slice(d.as_slice());
        assert(data@ =~= vstd::utf8::encode_utf8(self.secret@) + be_bytes(terminal_id.0)
            + be_bytes(dog_id.0));
        let digest = sha256(data.as_slice());
        proof {
            crate::text::lemma_hex_lower_len(digest@);
        }
        hex_encode(digest.as_slice())
    }

    /// Read an authorization header: `"Device <terminal_id>:<token>"`.
    pub fn verify_header(&self, header: &str) -> (r: Result<DeviceIdentity, AuthError>)
        ensures
            match (r, spec_verify_header(header@)) {
                (Ok(id), Ok((t, d, tok))) => id.terminal_id == t && id.dog_id == d && id.token@
                    == tok,
                (Err(e), Err(f)) => e == f,
                _ => false,
            },
    {
        match read_device_header(header) {
            Err(e) => Err(e),
            Ok((terminal_id, token)) => Ok(DeviceIdentity { terminal_id, dog_id: DogId::nil(), token }),
        }
    }

    /// Check a token against a terminal and dog.
    pub fn verify_pair(&self, terminal_id: TerminalId, dog_id: DogId, token: &str) -> (r: Result<
        (),
        AuthError,
    >)
        ensures
            r == spec_verify_pair(self.secret(), terminal_id, dog_id, token@),
    {
        let expect = self.token_for(terminal_id, dog_id);
        let given = String::from_str(token);
        if expect == given {
            Ok(())
        } else {
            Err(AuthError::Invalid)
        }
    }
}

proof fn lemma_hex_lower_no_colon(b: Seq<u8>)
    ensures
        forall|i: int| 0 <= i < hex_lower(b).len() ==> hex_lower(b)[i] != ':',
    decreases b.len(),
{
    if b.len() > 0 {
        lemma_hex_lower_no_colon(b.drop_last());
        let hi = b.last() / 16;
        let lo = b.last() % 16;
        assert(hex_digit(hi) != ':' && hex_digit(lo) != ':');
        let tail = seq![hex_digit(hi), hex_digit(lo)];
        assert forall|i: int| 0 <= i < hex_lower(b).len() implies hex_lower(b)[i] != ':' by {
            if i < hex_lower(b.drop_last()).len() {
                assert(hex_lower(b)[i] == hex_lower(b.drop_last())[i]);
            } else {
                assert(hex_lower(b)[i] == tail[i - hex_lower(b.drop_last()).len()]);
            }
        }
    }
}

/// The text of a UUID holds no `':'`.
pub proof fn lemma_uuid_text_no_colon(v: u128)
    ensures
        forall|i: int| 0 <= i < uuid_hyphenated(v).len() ==> uuid_hyphenated(v)[i] != ':',
{
    let b = be_bytes(v);
    lemma_hex_lower_no_colon(b.subrange(0, 4));
    lemma_hex_lower_no_colon(b.subrange(4, 6));
    lemma_hex_lower_no_colon(b.subrange(6, 8));
    lemma_hex_lower_no_colon(b.subrange(8, 10));
    lemma_hex_lower_no_colon(b.subrange(10, 16));
    let u = uuid_hyphenated(v);
    assert forall|i: int| 0 <= i < u.len() implies u[i] != ':' by {
        let p0 = hex_lower(b.subrange(0, 4));
        let p1 = hex_lower(b.subrange(4, 6));
        let p2 = hex_lower(b.subrange(6, 8));
        let p3 = hex_lower(b.subrange(8, 10));
        let p4 = hex_lower(b.subrange(10, 16));
        let d = seq!['-'];
        assert(u == p0 + d + p1 + d + p2 + d + p3 + d + p4);
        if i < p0.len() {
            assert(u[i] == p0[i]);
        } else if i < p0.len() + 1 {
        } else if i < p0.len() + 1 + p1.len() {
            assert(u[i] == p1[i - p0.len() - 1]);
        } else if i < p0.len() + 2 + p1.len() {
        } else if i < p0.len() + 2 + p1.len() + p2.len() {
            assert(u[i] == p2[i - p0.len() - 2 - p1.len()]);
        } else if i < p0.len() + 3 + p1.len() + p2.len() {
        } else if i < p0.len() + 3 + p1.len() + p2.len() + p3.len() {
            assert(u[i] == p3[i - p0.len() - 3 - p1.len() - p2.len()]);
        } else if i < p0.len() + 4 + p1.len() + p2.len() + p3.len() {
        } else {
            assert(u[i] == p4[i - p0.len() - 4 - p1.len() - p2.len() - p3.len()]);
        }
    }
}

/// Reading the header a terminal sends gives back its terminal id and its
/// token, with the dog left nil, wherever the terminal id's text parses back.
pub proof fn lemma_verify_header_reads_auth_header(terminal_id: TerminalId, token: Seq<char>)
    requires
        uuid_parse(uuid_hyphenated(terminal_id.0)) == Some(terminal_id.0),
    ensures
        spec_verify_header(auth_header_text(terminal_id, token)) == Ok::<
            (TerminalId, DogId, Seq<char>),
            AuthError,
        >((terminal_id, DogId(0), token)),
{
    reveal_strlit("Device ");
    reveal_strlit(":");
    let u = uuid_hyphenated(terminal_id.0);
    let h = auth_header_text(terminal_id, token);
    lemma_uuid_text_no_colon(terminal_id.0);
    assert(h.take(7) =~= "Device "@);
    let rest = h.skip(7);
    assert(rest =~= u + ":"@ + token);
    let k = u.len() as int;
    assert(rest[k] == ':');
    assert forall|j: int| 0 <= j < k implies rest[j] != ':' by {
        assert(rest[j] == u[j]);
    }
    let f = choose|i: int|
        0 <= i < rest.len() && rest[i] == ':' && forall|j: int| 0 <= j < i ==> rest[j] != ':';
    if f < k {
        assert(rest[f] == u[f]);
    }
    assert(first_colon(rest) == Some(k));
    assert(rest.take(k) =~= u);
    assert(rest.skip(k + 1) =~= token);
}

} // verus!
