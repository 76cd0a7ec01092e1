//! ICE / TURN credential distribution for NAT traversal.
//!
//! Supports static STUN/TURN URIs with a username/credential, and coturn
//! `use-auth-secret` ephemeral REST credentials (HMAC-SHA1).
use crate::protocol::IceConfig;
use crate::text::{chars_of, clone_strings, decimal, push_decimal, string_from_chars, strings_view};
use base64::Engine;
use hmac::Mac;
use vstd::prelude::*;
use vstd::string::StringExecFns;

verus! {

/// What HMAC-SHA1 (`hmac::Hmac<sha1::Sha1>`) computes for a key and message.
pub uninterp spec fn hmac_sha1_mac(key: Seq<u8>, msg: Seq<u8>) -> Seq<u8>;

/// HMAC-SHA1 of `msg` under `key`. The hmac crate accepts a key of any
/// length, and a SHA-1 MAC is 20 bytes.
#[verifier::external_body]
fn hmac_sha1(key: &[u8], msg: &[u8]) -> (r: Vec<u8>)
    ensures
        r@ == hmac_sha1_mac(key@, msg@),
        r@.len() == 20,
{
    let mut mac = <hmac::Hmac<sha1::Sha1> as hmac::Mac>::new_from_slice(key).expect("hmac key");
    mac.update(msg);
    mac.finalize().into_bytes().to_vec()
}

/// The character of a 6-bit value in the standard base64 alphabet.
pub open spec fn b64_char(n: u8) -> char {
    if n < 26 {
        (65 + n) as char
    } else if n < 52 {
        (97 + n - 26) as char
    } else if n < 62 {
        (48 + n - 52) as char
    } else if n == 62 {
        '+'
    } else {
        '/'
    }
}

/// Standard base64 (RFC 4648 alphabet, `=` padding) of a byte sequence.
pub open spec fn base64_std(b: Seq<u8>) -> Seq<char>
    decreases b.len(),
{
    if b.len() == 0 {
        Seq::empty()
    } else if b.len() == 1 {
        seq![b64_char(b[0] >> 2), b64_char((b[0] & 3) << 4), '=', '=']
    } else if b.len() == 2 {
        seq![
            b64_char(b[0] >> 2),
            b64_char(((b[0] & 3) << 4) | (b[1] >> 4)),
            b64_char((b[1] & 15) << 2),
            '=',
        ]
    } else {
        seq![
            b64_char(b[0] >> 2),
            b64_char(((b[0] & 3) << 4) | (b[1] >> 4)),
            b64_char(((b[1] & 15) << 2) | (b[2] >> 6)),
            b64_char(b[2] & 63),
        ] + base64_std(b.skip(3))
    }
}

/// `base64::engine::general_purpose::STANDARD.encode`: the standard
/// alphabet with padding.
#[verifier::external_body]
fn base64_encode(bytes: &[u8]) -> (s: String)
    ensures
        s@ == base64_std(bytes@),
{
    base64::engine::general_purpose::STANDARD.encode(bytes)
}

/// Seconds since the Unix epoch from `std::time::SystemTime::now`, or
/// `None` where the clock reads before the epoch. The value depends on the
/// clock.
#[verifier::external_body]
fn unix_now_secs() -> (r: Option<u64>) {
    match std::time::SystemTime::now().duration_since(std::time::UNIX_EPOCH) {
        Ok(d) => Some(d.as_secs()),
        Err(_) => None,
    }
}

/// Whether a character has the Unicode `White_Space` property
/// (`char::is_whitespace`).
pub open spec fn is_ws(c: char) -> bool {
    ||| '\u{9}' <= c <= '\u{d}'
    ||| c == ' '
    ||| c == '\u{85}'
    ||| c == '\u{a0}'
    ||| c == '\u{1680}'
    ||| '\u{2000}' <= c <= '\u{200a}'
    ||| c == '\u{2028}'
    ||| c == '\u{2029}'
    ||| c == '\u{202f}'
    ||| c == '\u{205f}'
    ||| c == '\u{3000}'
}

fn is_ws_exec(c: char) -> (r: bool)
    ensures
        r == is_ws(c),
{
    ('\u{9}' <= c && c <= '\u{d}') || c == ' ' || c == '\u{85}' || c == '\u{a0}' || c
        == '\u{1680}' || ('\u{2000}' <= c && c <= '\u{200a}') || c == '\u{2028}' || c
        == '\u{2029}' || c == '\u{202f}' || c == '\u{205f}' || c == '\u{3000}'
}

/// `s` without trailing whitespace.
pub open spec fn trim_end(s: Seq<char>) -> Seq<char>
    decreases s.len(),
{
    if s.len() > 0 && is_ws(s.last()) {
        trim_end(s.drop_last())
    } else {
        s
    }
}

/// `s` without leading whitespace.
pub open spec fn trim_start(s: Seq<char>) -> Seq<char>
    decreases s.len(),
{
    if s.len() > 0 && is_ws(s[0]) {
        trim_start(s.drop_first())
    } else {
        s
    }
}

/// `s` without leading or trailing whitespace (`str::trim`).
pub open spec fn trim(s: Seq<char>) -> Seq<char> {
    trim_start(trim_end(s))
}

/// The pieces of `s` between commas (`str::split(',')`): one more piece
/// than there are commas.
pub open spec fn split_commas(s: Seq<char>) -> Seq<Seq<char>>
    decreases s.len(),
{
    if s.len() == 0 {
        seq![Seq::empty()]
    } else {
        let p = split_commas(s.drop_last());
        if s.last() == ',' {
            p.push(Seq::empty())
        } else {
            p.update(p.len() - 1, p.last().push(s.last()))
        }
    }
}

/// The trimmed pieces, with the empty ones left out.
pub open spec fn trimmed_nonempty(ps: Seq<Seq<char>>) -> Seq<Seq<char>>
    decreases ps.len(),
{
    if ps.len() == 0 {
        Seq::empty()
    } else {
        let r = trimmed_nonempty(ps.drop_last());
        if trim(ps.last()).len() > 0 {
            r.push(trim(ps.last()))
        } else {
            r
        }
    }
}

/// The entries of a comma-separated list: split on commas, trimmed, empty
/// entries dropped.
pub open spec fn csv_entries(s: Seq<char>) -> Seq<Seq<char>> {
    trimmed_nonempty(split_commas(s))
}

proof fn lemma_split_commas_nonempty(s: Seq<char>)
    ensures
        split_commas(s).len() >= 1,
    decreases s.len(),
{
    if s.len() > 0 {
        lemma_split_commas_nonempty(s.drop_last());
    }
}

/// `v` trimmed of whitespace at both ends.
fn trim_chars(v: &Vec<char>) -> (r: Vec<char>)
    ensures
        r@ == trim(v@),
{
    let mut end: usize = v.len();
    assert(v@.take(end as int) =~= v@);
    while end > 0 && is_ws_exec(v[end - 1])
        invariant
            end <= v@.len(),
            trim_end(v@) == trim_end(v@.take(end as int)),
        decreases end,
    {
        assert(v@.take(end - 1) =~= v@.take(end as int).drop_last());
        end = end - 1;
    }
    assert(trim_end(v@.take(end as int)) == v@.take(end as int));
    let ghost w = v@.take(end as int);
    let mut start: usize = 0;
    while start < end && is_ws_exec(v[start])
        invariant
            start <= end <= v@.len(),
            w == v@.take(end as int),
            trim_start(w) == trim_start(v@.subrange(start as int, end as int)),
        decreases end - start,
    {
        assert(v@.subrange(start + 1, end as int) =~= v@.subrange(
            start as int,
            end as int,
        ).drop_first());
        start = start + 1;
    }
    assert(trim_start(v@.subrange(start as int, end as int)) == v@.subrange(
        start as int,
        end as int,
    ));
    let mut r: Vec<char> = Vec::new();
    let mut i: usize = start;
    while i < end
        invariant
            start <= i <= end <= v@.len(),
            r@ == v@.subrange(start as int, i as int),
        decreases end - i,
    {
        r.push(v[i]);
        i = i + 1;
        assert(r@ =~= v@.subrange(start as int, i as int));
    }
    assert(w =~= v@.subrange(0, end as int));
    assert(v@.subrange(0, end as int).subrange(0, end as int) =~= w);
    assert(trim(v@) == trim_start(w));
    r
}

/// Parse a comma-separated list of URLs.
pub fn split_csv(s: &str) -> (r: Vec<String>)
    ensures
        strings_view(r@) == csv_entries(s@),
{
    let chars = chars_of(s);
    let mut out: Vec<String> = Vec::new();
    let mut cur: Vec<char> = Vec::new();
    let mut i: usize = 0;
    proof {
        lemma_split_commas_nonempty(chars@.take(0));
        assert(chars@.take(0) =~= Seq::<char>::empty());
    }
    while i < chars.len()
        invariant
            i <= chars@.len(),
            chars@ == s@,
            split_commas(chars@.take(i as int)).len() >= 1,
            cur@ == split_commas(chars@.take(i as int)).last(),
            strings_view(out@) == trimmed_nonempty(
                split_commas(chars@.take(i as int)).drop_last(),
            ),
        decreases chars@.len() - i,
    {
        let c = chars[i];
        let ghost pre = chars@.take(i as int);
        let ghost ps = split_commas(pre);
        assert(chars@.take(i + 1).drop_last() =~= pre);
        if c == ',' {
            let t = trim_chars(&cur);
            let ghost prev = out@;
            if t.len() > 0 {
                out.push(string_from_chars(&t));
                assert(strings_view(out@) =~= strings_view(prev).push(t@));
            }
            cur = Vec::new();
            assert(split_commas(chars@.take(i + 1)) == ps.push(Seq::empty()));
            assert(ps.push(Seq::empty()).drop_last() =~= ps);
            assert(ps =~= ps.drop_last().push(ps.last()));
            assert(trimmed_nonempty(ps) == (if trim(ps.last()).len() > 0 {
                trimmed_nonempty(ps.drop_last()).push(trim(ps.last()))
            } else {
                trimmed_nonempty(ps.drop_last())
            }));
        } else {
            cur.push(c);
            let ghost ps2 = ps.update(ps.len() - 1, ps.last().push(c));
            assert(split_commas(chars@.take(i + 1)) == ps2);
            assert(ps2.drop_last() =~= ps.drop_last());
        }
        i = i + 1;
    }
    assert(chars@.take(i as int) =~= chars@);
    let ghost ps = split_commas(chars@);
    let t = trim_chars(&cur);
    let ghost prev = out@;
    if t.len() > 0 {
        out.push(string_from_chars(&t));
        assert(strings_view(out@) =~= strings_view(prev).push(t@));
    }
    assert(ps =~= ps.drop_last().push(ps.last()));
    assert(trimmed_nonempty(ps) == (if trim(ps.last()).len() > 0 {
        trimmed_nonempty(ps.drop_last()).push(trim(ps.last()))
    } else {
        trimmed_nonempty(ps.drop_last())
    }));
    out
}

/// Whether a character may stand in a TURN username unchanged.
pub open spec fn turn_user_char_ok(c: char) -> bool {
    ('0' <= c <= '9') || ('a' <= c <= 'z') || ('A' <= c <= 'Z') || c == '-' || c == '_'
}

/// A user label with every character outside `[A-Za-z0-9_-]` replaced by `_`.
pub open spec fn sanitize_user(s: Seq<char>) -> Seq<char> {
    s.map_values(
        |c: char|
            if turn_user_char_ok(c) {
                c
            } else {
                '_'
            },
    )
}

/// `a + b`, or `u64::MAX` where that overflows.
pub open spec fn saturating_add(a: u64, b: u64) -> u64 {
    if a + b > u64::MAX {
        u64::MAX
    } else {
        (a + b) as u64
    }
}

/// The coturn REST username: `{expiry}:{user}` with the user sanitised.
pub open spec fn turn_username(now_secs: u64, user: Seq<char>, ttl_sec: u64) -> Seq<char> {
    decimal(saturating_add(now_secs, ttl_sec) as nat) + seq![':'] + sanitize_user(user)
}

/// The coturn REST password: base64 of HMAC-SHA1 of the username under the
/// secret.
pub open spec fn turn_credential(secret: Seq<char>, username: Seq<char>) -> Seq<char> {
    base64_std(
        hmac_sha1_mac(vstd::utf8::encode_utf8(secret), vstd::utf8::encode_utf8(username)),
    )
}

/// Coturn REST credentials for a given current time (in seconds).
pub fn turn_rest_credentials(secret: &str, user: &str, ttl_sec: u64, now_secs: u64) -> (r: (
    String,
    String,
))
    ensures
        r.0@ == turn_username(now_secs, user@, ttl_sec),
        r.1@ == turn_credential(secret@, r.0@),
        r.1@.len() == 28,
{
    let expiry: u64 = now_secs.saturating_add(ttl_sec);
    let mut name: Vec<char> = Vec::new();
    push_decimal(&mut name, expiry);
    name.push(':');
    let user_chars = chars_of(user);
    let ghost head = name@;
    let mut i: usize = 0;
    while i < user_chars.len()
        invariant
            i <= user_chars@.len(),
            user_chars@ == user@,
            name@ == head + sanitize_user(user@.take(i as int)),
        decreases user_chars@.len() - i,
    {
        let c = user_chars[i];
        let ok = ('0' <= c && c <= '9') || ('a' <= c && c <= 'z') || ('A' <= c && c <= 'Z') || c
            == '-' || c == '_';
        if ok {
            name.push(c);
        } else {
            name.push('_');
        }
        i = i + 1;
        assert(name@ =~= head + sanitize_user(user@.take(i as int)));
    }
    assert(user@.take(i as int) =~= user@);
    let username = string_from_chars(&name);
    assert(username@ =~= turn_username(now_secs, user@, ttl_sec));
    let key = secret.as_bytes();
    let msg = username.as_str().as_bytes();
    let mac = hmac_sha1(key, msg);
    let credential = base64_encode(mac.as_slice());
    proof {
        lemma_base64_len(mac@);
    }
    (username, credential)
}

/// Coturn REST API style credentials: username = `{expiry}:{user}`,
/// password = base64(hmac-sha1(secret, username)), with expiry the current
/// time plus `ttl_sec` (a clock before the epoch reads as 0).
pub fn mint_turn_rest(secret: &str, user: &str, ttl_sec: u64) -> (r: (String, String))
    ensures
        exists|now_secs: u64|
            r.0@ == turn_username(now_secs, user@, ttl_sec) && r.1@ == turn_credential(
                secret@,
                r.0@,
            ),
        r.1@.len() == 28,
{
    let now: u64 = match unix_now_secs() {
        Some(s) => s,
        None => 0,
    };
    turn_rest_credentials(secret, user, ttl_sec, now)
}

/// Runtime ICE policy loaded from env / CLI.
#[derive(Debug, Clone)]
pub struct IcePolicy {
    pub stun_urls: Vec<String>,
    pub turn_uris: Vec<String>,
    /// Static TURN username (used when `turn_secret` is empty).
    pub turn_username: String,
    /// Static TURN credential.
    pub turn_credential: String,
    /// Coturn shared secret for time-limited REST credentials.
    pub turn_secret: String,
    pub ttl_sec: u64,
    pub force_turn: bool,
}

/// The default STUN server.
pub open spec fn default_stun() -> Seq<char> {
    "stun:stun.l.google.com:19302"@
}

impl IcePolicy {
    /// Whether `p` holds the defaults: one public STUN server, no TURN,
    /// a one-hour TTL.
    pub open spec fn is_default(p: IcePolicy) -> bool {
        &&& strings_view(p.stun_urls@) == seq![default_stun()]
        &&& p.turn_uris@.len() == 0
        &&& p.turn_username@.len() == 0
        &&& p.turn_credential@.len() == 0
        &&& p.turn_secret@.len() == 0
        &&& p.ttl_sec == 3600
        &&& !p.force_turn
    }

    /// Build a policy from configuration text: comma-separated STUN and TURN
    /// lists (the default STUN server stays when the STUN list is empty) and
    /// a TTL of at least 60 s.
    pub fn from_parts(
        stun: &str,
        turn_uris: &str,
        username: &str,
        credential: &str,
        secret: &str,
        ttl_sec: u64,
        force_turn: bool,
    ) -> (p: Self)
        ensures
            strings_view(p.stun_urls@) == (if csv_entries(stun@).len() == 0 {
                seq![default_stun()]
            } else {
                csv_entries(stun@)
            }),
            strings_view(p.turn_uris@) == csv_entries(turn_uris@),
            p.turn_username@ == username@,
            p.turn_credential@ == credential@,
            p.turn_secret@ == secret@,
            p.ttl_sec == (if ttl_sec < 60 {
                60
            } else {
                ttl_sec
            }),
            p.force_turn == force_turn,
    {
        let mut p = Self::default();
        let stun_list = split_csv(stun);
        if stun_list.len() > 0 {
            p.stun_urls = stun_list;
        }
        p.turn_uris = split_csv(turn_uris);
        p.turn_username = String::from_str(username);
        p.turn_credential = String::from_str(credential);
        p.turn_secret = String::from_str(secret);
        p.ttl_sec = if ttl_sec < 60 {
            60
        } else {
            ttl_sec
        };
        p.force_turn = force_turn;
        p
    }

    /// Build a per-request ICE config: ephemeral TURN credentials for
    /// `dog_label` whenever a TURN secret is set, else the static ones.
    pub fn mint(&self, dog_label: &str) -> (c: IceConfig)
        ensures
            strings_view(c.stun_urls@) == strings_view(self.stun_urls@),
            strings_view(c.turn_uris@) == strings_view(self.turn_uris@),
            c.ttl_sec == self.ttl_sec,
            if self.turn_secret@.len() > 0 {
                exists|now_secs: u64|
                    c.turn_username@ == turn_username(now_secs, dog_label@, self.ttl_sec)
                        && c.turn_credential@ == turn_credential(
                        self.turn_secret@,
                        c.turn_username@,
                    ) && c.turn_credential@.len() == 28
            } else {
                c.turn_username@ == self.turn_username@ && c.turn_credential@
                    == self.turn_credential@
            },
    {
        let (username, credential) = if !self.turn_secret.as_str().is_empty() {
            mint_turn_rest(self.turn_secret.as_str(), dog_label, self.ttl_sec)
        } else {
            (self.turn_username.clone(), self.turn_credential.clone())
        };
        IceConfig {
            stun_urls: clone_strings(&self.stun_urls),
            turn_uris: clone_strings(&self.turn_uris),
            turn_username: username,
            turn_credential: credential,
            ttl_sec: self.ttl_sec,
        }
    }
}

impl Default for IcePolicy {
    fn default() -> (p: Self)
        ensures
            IcePolicy::is_default(p),
    {
        let mut stun_urls: Vec<String> = Vec::new();
        stun_urls.push(String::from_str("stun:stun.l.google.com:19302"));
        let p = IcePolicy {
            stun_urls,
            turn_uris: Vec::new(),
            turn_username: String::new(),
            turn_credential: String::new(),
            turn_secret: String::new(),
            ttl_sec: 3600,
            force_turn: false,
        };
        assert(strings_view(p.stun_urls@) =~= seq![default_stun()]);
        p
    }
}

/// Base64 of `n` bytes has `4 * ceil(n / 3)` characters.
pub proof fn lemma_base64_len(b: Seq<u8>)
    ensures
        base64_std(b).len() == 4 * ((b.len() + 2) / 3),
    decreases b.len(),
{
    if b.len() >= 3 {
        lemma_base64_len(b.skip(3));
    }
}

} // verus!
