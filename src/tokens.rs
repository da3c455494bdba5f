use base64::Engine;
use vstd::prelude::*;

verus! {

/// Seconds a pairing token stays valid.
pub const TOKEN_LIFETIME_SECS: u64 = 300;

/// What base64's URL-safe engine without padding encodes `b` to.
pub uninterp spec fn base64_url_encoded(b: Seq<u8>) -> Seq<char>;

/// A character of the URL-safe base64 alphabet: `A-Z`, `a-z`, `0-9`, `-`, `_`.
pub open spec fn url_safe_char(c: char) -> bool {
    ('A' <= c <= 'Z') || ('a' <= c <= 'z') || ('0' <= c <= '9') || c == '-' || c == '_'
}

/// Relies on base64's `URL_SAFE_NO_PAD.encode`: the text depends on the bytes
/// alone, uses the URL-safe alphabet, has no padding, and is four characters for
/// each three bytes, rounded up.
#[verifier::external_body]
fn b64_url_encode(b: &[u8]) -> (r: String)
    ensures
        r@ == base64_url_encoded(b@),
        r@.len() == (4 * b@.len() + 2) / 3,
        forall|i: int| 0 <= i < r@.len() ==> url_safe_char(#[trigger] r@[i]),
{
    base64::engine::general_purpose::URL_SAFE_NO_PAD.encode(b)
}

pub type TokenView = Seq<(Seq<char>, u64)>;

/// Whether entry `e` outlives `now` and is not `token`.
pub open spec fn keeps(e: (Seq<char>, u64), token: Option<Seq<char>>, now: u64) -> bool {
    e.1 > now && token != Some(e.0)
}

/// The tokens still valid at `now`, without `token`, in order.
pub open spec fn kept(s: TokenView, token: Option<Seq<char>>, now: u64) -> TokenView
    decreases s.len(),
{
    if s.len() == 0 {
        s
    } else {
        let k = kept(s.drop_last(), token, now);
        if keeps(s.last(), token, now) {
            k.push(s.last())
        } else {
            k
        }
    }
}

/// Whether `s` holds `token` with an expiry after `now`.
pub open spec fn valid_at(s: TokenView, token: Seq<char>, now: u64) -> bool
    decreases s.len(),
{
    if s.len() == 0 {
        false
    } else {
        valid_at(s.drop_last(), token, now) || (s.last().0 == token && s.last().1 > now)
    }
}

proof fn lemma_kept_lacks(s: TokenView, token: Seq<char>, now: u64, later: u64)
    ensures
        !valid_at(kept(s, Some(token), now), token, later),
    decreases s.len(),
{
    if s.len() > 0 {
        lemma_kept_lacks(s.drop_last(), token, now, later);
        let k = kept(s.drop_last(), Some(token), now);
        if keeps(s.last(), Some(token), now) {
            assert(k.push(s.last()).drop_last() =~= k);
        }
    }
}

/// A pairing token validates at most once: whatever the first validation of
/// `token` returned, the tokens it leaves behind never validate `token` again.
pub proof fn lemma_token_single_use(s: TokenView, token: Seq<char>, now: u64, later: u64)
    ensures
        !valid_at(kept(s, Some(token), now), token, later),
{
    lemma_kept_lacks(s, token, now, later);
}

/// Outstanding single-use pairing tokens with their expiry (Unix seconds).
pub struct PairingTokens {
    entries: Vec<(String, u64)>,
}

impl PairingTokens {
    pub closed spec fn view(&self) -> TokenView {
        Seq::new(self.entries@.len(), |i: int| (self.entries@[i].0@, self.entries@[i].1))
    }

    pub fn new() -> (r: PairingTokens)
        ensures
            r.view() == Seq::<(Seq<char>, u64)>::empty(),
    {
        let r = PairingTokens { entries: Vec::new() };
        assert(r.view() =~= Seq::<(Seq<char>, u64)>::empty());
        r
    }

    /// Takes tokens as they were stored.
    pub fn from_entries(entries: Vec<(String, u64)>) -> (r: PairingTokens)
        ensures
            r.view() == Seq::new(entries@.len(), |i: int| (entries@[i].0@, entries@[i].1)),
    {
        PairingTokens { entries }
    }

    /// The tokens with their expiry, for storing.
    pub fn entries(&self) -> (r: &Vec<(String, u64)>)
        ensures
            self.view() == Seq::new(r@.len(), |i: int| (r@[i].0@, r@[i].1)),
    {
        &self.entries
    }

    /// Drops the tokens whose expiry is not after `now`.
    pub fn prune(&mut self, now: u64)
        ensures
            final(self).view() == kept(old(self).view(), None, now),
    {
        let _ = self.take(None, now);
    }

    /// Adds `token`, valid until `expiry`.
    pub fn insert(&mut self, token: String, expiry: u64)
        ensures
            final(self).view() == old(self).view().push((token@, expiry)),
    {
        let ghost t = token@;
        self.entries.push((token, expiry));
        assert(self.view() =~= old(self).view().push((t, expiry)));
    }

    /// Makes a pairing token out of 32 random bytes and adds it, valid for
    /// `TOKEN_LIFETIME_SECS` from `now`.
    pub fn create_pairing_token(&mut self, random: &[u8; 32], now: u64) -> (r: String)
        ensures
            r@ == base64_url_encoded(random@),
            r@.len() == 43,
            forall|i: int| 0 <= i < r@.len() ==> url_safe_char(#[trigger] r@[i]),
            final(self).view() == old(self).view().push(
                (
                    r@,
                    if now <= u64::MAX - TOKEN_LIFETIME_SECS {
                        (now + TOKEN_LIFETIME_SECS) as u64
                    } else {
                        u64::MAX
                    },
                ),
            ),
    {
        let token = b64_url_encode(random.as_slice());
        let expiry = if now <= u64::MAX - TOKEN_LIFETIME_SECS {
            now + TOKEN_LIFETIME_SECS
        } else {
            u64::MAX
        };
        self.insert(token.clone(), expiry);
        token
    }

    /// Validates and consumes `token`: expired tokens and every copy of `token`
    /// are removed, and the result tells whether `token` was still valid.
    pub fn validate_pairing_token(&mut self, token: &String, now: u64) -> (r: bool)
        ensures
            r == valid_at(old(self).view(), token@, now),
            final(self).view() == kept(old(self).view(), Some(token@), now),
    {
        self.take(Some(token), now)
    }

    fn take(&mut self, token: Option<&String>, now: u64) -> (found: bool)
        ensures
            final(self).view() == kept(
                old(self).view(),
                match token {
                    Some(t) => Some(t@),
                    None => None,
                },
                now,
            ),
            found == (token is Some && valid_at(old(self).view(), token->Some_0@, now)),
    {
        let ghost tv: Option<Seq<char>> = match token {
            Some(t) => Some(t@),
            None => None,
        };
        let ghost all = self.view();
        let mut out: Vec<(String, u64)> = Vec::new();
        let mut found = false;
        let mut i: usize = 0;
        while i < self.entries.len()
            invariant
                i <= self.entries@.len(),
                all == self.view(),
                tv == match token {
                    Some(t) => Some(t@),
                    None => None,
                },
                Seq::new(out@.len(), |j: int| (out@[j].0@, out@[j].1)) == kept(
                    all.subrange(0, i as int),
                    tv,
                    now,
                ),
                found == (token is Some && valid_at(all.subrange(0, i as int), token->Some_0@, now)),
            decreases self.entries@.len() - i,
        {
            let ghost before = Seq::new(out@.len(), |j: int| (out@[j].0@, out@[j].1));
            assert(all.subrange(0, i + 1).drop_last() =~= all.subrange(0, i as int));
            assert(all.subrange(0, i + 1).last() == all[i as int]);
            let exp = self.entries[i].1;
            if exp > now {
                let same = match token {
                    Some(t) => self.entries[i].0 == *t,
                    None => false,
                };
                if same {
                    found = true;
                } else {
                    out.push((self.entries[i].0.clone(), exp));
                    assert(Seq::new(out@.len(), |j: int| (out@[j].0@, out@[j].1)) =~= before.push(
                        all[i as int],
                    ));
                }
            }
            i = i + 1;
        }
        assert(all.subrange(0, self.entries@.len() as int) =~= all);
        self.entries = out;
        found
    }
}

} // verus!
