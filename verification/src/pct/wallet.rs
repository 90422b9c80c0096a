//! A wallet of tokens: balance, selection of the token to spend, and
//! encrypted storage.
//!
//! Stored form: `SWLT`, the salt (16), the nonce (12), the ciphertext
//! length (u32 LE) and the ciphertext, which encrypts the payload: the
//! token count (u32 LE), then for each token its encoding's length
//! (u32 LE) and its encoding.

use vstd::prelude::*;
use crate::pct::token::ProofCarryingToken;
use crate::pct::serde_token::{SerdeError, TokenView, token_bytes, token_view, spec_deserialize};
use crate::pct::secure_store::{EncryptedData, SecureStoreError, decrypt_result, spec_aead_seal, spec_derive_key};

verus! {

/// Errors of wallet operations.
#[derive(Debug, PartialEq, Eq, Clone, Copy)]
pub enum WalletError {
    /// The stored wallet is malformed.
    InvalidFormat,
    /// A stored token does not verify.
    TokenVerificationFailed,
    /// Wrong passphrase or corrupted data.
    WrongPassphrase,
    /// A stored token does not decode, or encryption failed.
    TokenError(SerdeError),
}

/// Summary of a token.
#[derive(Debug, Clone, Copy)]
pub struct TokenInfo {
    pub token_id: [u8; 32],
    pub value: u64,
    pub transfer_count: u32,
    pub recursion_bound: u32,
    pub needs_renewal: bool,
    pub has_credential: bool,
    pub has_bond: bool,
    pub estimated_size: usize,
}

/// Most tokens a wallet holds.
pub const MAX_TOKENS: usize = 100_000;

/// A wallet.
pub struct Wallet {
    tokens: Vec<ProofCarryingToken>,
}

/// `Σ values`, saturating at `u64::MAX`, in order.
pub open spec fn saturating_sum(ts: Seq<ProofCarryingToken>, n: int) -> u64
    decreases n,
{
    if n <= 0 {
        0
    } else {
        let s = saturating_sum(ts, n - 1) as int + ts[n - 1].value as int;
        if s > u64::MAX { u64::MAX } else { s as u64 }
    }
}

/// The tokens that have used up their transfers, in order.
pub open spec fn needing_renewal(ts: Seq<ProofCarryingToken>) -> Seq<ProofCarryingToken>
    decreases ts.len(),
{
    if ts.len() == 0 {
        Seq::empty()
    } else {
        let r = needing_renewal(ts.drop_last());
        if ts.last().transfer_count >= ts.last().recursion_bound { r.push(ts.last()) } else { r }
    }
}

/// Whether a token can pay `amount` now.
pub open spec fn eligible(t: ProofCarryingToken, amount: u64) -> bool {
    t.value >= amount && t.transfer_count < t.recursion_bound
}

/// Scanning the first `n` tokens, the index of the first eligible token
/// of least value, if any.
pub open spec fn best_upto(ts: Seq<ProofCarryingToken>, amount: u64, n: int) -> Option<int>
    decreases n,
{
    if n <= 0 {
        None
    } else {
        let prev = best_upto(ts, amount, n - 1);
        if !eligible(ts[n - 1], amount) {
            prev
        } else {
            match prev {
                None => Some(n - 1),
                Some(b) => if ts[n - 1].value < ts[b].value { Some(n - 1) } else { prev },
            }
        }
    }
}

/// The index of the first eligible token of least value, if any.
pub open spec fn best_index(ts: Seq<ProofCarryingToken>, amount: u64) -> Option<int> {
    best_upto(ts, amount, ts.len() as int)
}

/// The index of the first token with the given id, if any.
pub open spec fn index_of_id(ts: Seq<ProofCarryingToken>, id: [u8; 32]) -> Option<int> {
    if exists|i: int| 0 <= i < ts.len() && ts[i].token_id == id {
        Some(choose|i: int| 0 <= i < ts.len() && ts[i].token_id == id && forall|j: int| 0 <= j < i ==> ts[j].token_id != id)
    } else {
        None
    }
}

impl View for Wallet {
    type V = Seq<ProofCarryingToken>;

    closed spec fn view(&self) -> Seq<ProofCarryingToken> {
        self.tokens@
    }
}

impl Wallet {
    /// At most `MAX_TOKENS` tokens.
    pub open spec fn wf(&self) -> bool {
        self@.len() <= MAX_TOKENS
    }

    /// An empty wallet.
    pub fn new() -> (w: Self)
        ensures
            w.wf(),
            w@.len() == 0,
    {
        Wallet { tokens: Vec::new() }
    }

    /// Adds a token; `false` (and no change) when the wallet is full.
    pub fn add_token(&mut self, token: ProofCarryingToken) -> (added: bool)
        requires
            old(self).wf(),
        ensures
            final(self).wf(),
            added == (old(self)@.len() < MAX_TOKENS),
            added ==> final(self)@ == old(self)@.push(token),
            !added ==> final(self)@ == old(self)@,
    {
        if self.tokens.len() >= MAX_TOKENS {
            return false;
        }
        self.tokens.push(token);
        true
    }

    /// Removes the first token with the given id.
    pub fn remove_token(&mut self, token_id: &[u8; 32]) -> (r: Option<ProofCarryingToken>)
        requires
            old(self).wf(),
        ensures
            final(self).wf(),
            match index_of_id(old(self)@, *token_id) {
                Some(i) => r == Some(old(self)@[i]) && final(self)@ == old(self)@.remove(i),
                None => r.is_none() && final(self)@ == old(self)@,
            },
    {
        let mut i: usize = 0;
        while i < self.tokens.len()
            invariant
                old(self)@.len() <= MAX_TOKENS,
                0 <= i <= self.tokens@.len(),
                self.tokens@ == old(self)@,
                forall|j: int| 0 <= j < i ==> self.tokens@[j].token_id != *token_id,
            decreases self.tokens@.len() - i,
        {
            if crate::bytes::bytes32_eq(&self.tokens[i].token_id, token_id) {
                proof {
                    let ts = old(self)@;
                    assert(self.tokens@[i as int].token_id =~= *token_id);
                    let w = choose|k: int| 0 <= k < ts.len() && ts[k].token_id == *token_id
                        && forall|j: int| 0 <= j < k ==> ts[j].token_id != *token_id;
                    assert(0 <= i < ts.len() && ts[i as int].token_id == *token_id);
                    if w < i { assert(ts[w].token_id != *token_id); }
                    if w > i { assert(ts[i as int].token_id != *token_id); }
                }
                let t = self.tokens.remove(i);
                return Some(t);
            }
            i = i + 1;
        }
        None
    }

    /// The total value, saturating at `u64::MAX`.
    pub fn balance(&self) -> (b: u64)
        ensures
            b == saturating_sum(self@, self@.len() as int),
    {
        let mut acc: u64 = 0;
        let mut i: usize = 0;
        while i < self.tokens.len()
            invariant
                0 <= i <= self.tokens@.len(),
                acc == saturating_sum(self.tokens@, i as int),
            decreases self.tokens@.len() - i,
        {
            acc = acc.saturating_add(self.tokens[i].value);
            i = i + 1;
        }
        acc
    }

    /// The number of tokens.
    pub fn token_count(&self) -> (n: usize)
        ensures
            n == self@.len(),
    {
        self.tokens.len()
    }

    /// Whether the wallet holds no token.
    pub fn is_empty(&self) -> (b: bool)
        ensures
            b == (self@.len() == 0),
    {
        self.tokens.len() == 0
    }

    fn best(&self, amount: u64) -> (r: Option<usize>)
        ensures
            match best_index(self@, amount) {
                Some(i) => r.is_some() && r.unwrap() as int == i && 0 <= i < self@.len(),
                None => r.is_none(),
            },
    {
        let ghost ts = self@;
        let mut best: Option<usize> = None;
        let mut i: usize = 0;
        while i < self.tokens.len()
            invariant
                ts == self.tokens@,
                0 <= i <= ts.len(),
                match best_upto(ts, amount, i as int) {
                    Some(b) => best.is_some() && best.unwrap() as int == b && 0 <= b < i,
                    None => best.is_none(),
                },
            decreases ts.len() - i,
        {
            let t = &self.tokens[i];
            if t.value >= amount && !t.needs_renewal() {
                match best {
                    None => { best = Some(i); },
                    Some(b) => {
                        if t.value < self.tokens[b].value {
                            best = Some(i);
                        }
                    },
                }
            }
            i = i + 1;
        }
        proof {
            law_selection_is_first_minimum(ts, amount, ts.len() as int);
        }
        best
    }

    /// The token to spend for `amount`: the first one of least value among
    /// those worth at least `amount` with transfers left.
    pub fn select_token(&self, amount: u64) -> (r: Option<&ProofCarryingToken>)
        ensures
            match best_index(self@, amount) {
                Some(i) => r.is_some() && *r.unwrap() == self@[i],
                None => r.is_none(),
            },
    {
        match self.best(amount) {
            Some(i) => {
                let t = &self.tokens[i];
                assert(best_index(self@, amount) is Some);
                assert(best_index(self@, amount)->0 == i as int);
                assert(*t == self@[i as int]);
                Some(t)
            },
            None => None,
        }
    }

    /// Removes and returns the token `select_token` would choose.
    pub fn take_token(&mut self, amount: u64) -> (r: Option<ProofCarryingToken>)
        requires
            old(self).wf(),
        ensures
            final(self).wf(),
            match best_index(old(self)@, amount) {
                Some(i) => r == Some(old(self)@[i]) && final(self)@ == old(self)@.remove(i),
                None => r.is_none() && final(self)@ == old(self)@,
            },
    {
        match self.best(amount) {
            Some(i) => Some(self.tokens.remove(i)),
            None => None,
        }
    }

    /// The tokens that have used up their transfers, in order.
    pub fn tokens_needing_renewal(&self) -> (v: Vec<&ProofCarryingToken>)
        ensures
            v@.map_values(|t: &ProofCarryingToken| *t) == needing_renewal(self@),
    {
        let ghost ts = self@;
        let mut v: Vec<&ProofCarryingToken> = Vec::new();
        let mut i: usize = 0;
        while i < self.tokens.len()
            invariant
                ts == self.tokens@,
                0 <= i <= ts.len(),
                v@.map_values(|t: &ProofCarryingToken| *t) == needing_renewal(ts.take(i as int)),
            decreases ts.len() - i,
        {
            let t = &self.tokens[i];
            proof {
                assert(ts.take(i + 1).drop_last() =~= ts.take(i as int));
                assert(ts.take(i + 1).last() == ts[i as int]);
            }
            if t.needs_renewal() {
                v.push(t);
            }
            assert(v@.map_values(|t: &ProofCarryingToken| *t) =~= needing_renewal(ts.take(i + 1)));
            i = i + 1;
        }
        assert(ts.take(ts.len() as int) =~= ts);
        v
    }

    /// A summary of each token, in order.
    pub fn list_tokens(&self) -> (v: Vec<TokenInfo>)
        ensures
            v@.len() == self@.len(),
            forall|i: int| 0 <= i < v@.len() ==> {
                let t = self@[i];
                let info = #[trigger] v@[i];
                &&& info.token_id == t.token_id
                &&& info.value == t.value
                &&& info.transfer_count == t.transfer_count
                &&& info.recursion_bound == t.recursion_bound
                &&& info.needs_renewal == (t.transfer_count >= t.recursion_bound)
                &&& info.has_credential == t.credential.is_some()
                &&& info.has_bond == t.bond_owner_id.is_some()
                &&& info.estimated_size == 240
            },
    {
        let mut v: Vec<TokenInfo> = Vec::new();
        let mut i: usize = 0;
        while i < self.tokens.len()
            invariant
                0 <= i <= self.tokens@.len(),
                v@.len() == i,
                forall|k: int| 0 <= k < i ==> {
                    let t = self.tokens@[k];
                    let info = #[trigger] v@[k];
                    &&& info.token_id == t.token_id
                    &&& info.value == t.value
                    &&& info.transfer_count == t.transfer_count
                    &&& info.recursion_bound == t.recursion_bound
                    &&& info.needs_renewal == (t.transfer_count >= t.recursion_bound)
                    &&& info.has_credential == t.credential.is_some()
                    &&& info.has_bond == t.bond_owner_id.is_some()
                    &&& info.estimated_size == 240
                },
            decreases self.tokens@.len() - i,
        {
            let t = &self.tokens[i];
            v.push(TokenInfo {
                token_id: t.token_id,
                value: t.value,
                transfer_count: t.transfer_count,
                recursion_bound: t.recursion_bound,
                needs_renewal: t.needs_renewal(),
                has_credential: t.has_credential(),
                has_bond: t.has_bond(),
                estimated_size: t.estimated_size(),
            });
            i = i + 1;
        }
        v
    }

    /// The estimated storage of all tokens: 240 bytes each.
    pub fn total_storage_bytes(&self) -> (n: usize)
        requires
            self.wf(),
        ensures
            n == 240 * self@.len(),
    {
        let mut total: usize = 0;
        let mut i: usize = 0;
        while i < self.tokens.len()
            invariant
                self.tokens@.len() <= MAX_TOKENS,
                0 <= i <= self.tokens@.len(),
                total == 240 * i,
            decreases self.tokens@.len() - i,
        {
            total = total + self.tokens[i].estimated_size();
            i = i + 1;
        }
        total
    }
}


/// The token chosen to pay an amount is eligible, of least value among
/// the eligible ones, and the first of those; none is chosen only when no
/// token is eligible.
pub proof fn law_selection_is_first_minimum(ts: Seq<ProofCarryingToken>, amount: u64, n: int)
    requires
        0 <= n <= ts.len(),
    ensures
        match best_upto(ts, amount, n) {
            Some(b) => 0 <= b < n && eligible(ts[b], amount)
                && (forall|j: int| 0 <= j < n && eligible(ts[j], amount) ==> ts[b].value <= ts[j].value)
                && (forall|j: int| 0 <= j < b && eligible(ts[j], amount) ==> ts[j].value > ts[b].value),
            None => forall|j: int| 0 <= j < n ==> !eligible(ts[j], amount),
        },
    decreases n,
{
    if n > 0 {
        law_selection_is_first_minimum(ts, amount, n - 1);
    }
}


// ─── Storage ───────────────────────────────────────────────────────────

/// The encodings of tokens, each preceded by its length (u32 LE).
pub open spec fn entries_bytes(ts: Seq<TokenView>) -> Seq<u8>
    decreases ts.len(),
{
    if ts.len() == 0 {
        Seq::empty()
    } else {
        entries_bytes(ts.drop_last()) + vstd::bytes::spec_u32_to_le_bytes(token_bytes(ts.last()).len() as u32)
            + token_bytes(ts.last())
    }
}

/// The plaintext of a stored wallet: the count, then the entries.
pub open spec fn payload_bytes(ts: Seq<TokenView>) -> Seq<u8> {
    vstd::bytes::spec_u32_to_le_bytes(ts.len() as u32) + entries_bytes(ts)
}

/// The views of a wallet's tokens.
pub open spec fn views(ts: Seq<ProofCarryingToken>) -> Seq<TokenView> {
    ts.map_values(|t: ProofCarryingToken| token_view(t))
}

/// The magic bytes `SWLT`.
pub open spec fn wallet_magic() -> Seq<u8> {
    seq![0x53u8, 0x57u8, 0x4cu8, 0x54u8]
}

/// The stored form around a ciphertext.
pub open spec fn stored_bytes(salt: Seq<u8>, nonce: Seq<u8>, ct: Seq<u8>) -> Seq<u8> {
    wallet_magic() + salt + nonce + vstd::bytes::spec_u32_to_le_bytes(ct.len() as u32) + ct
}

/// Prepends a token to the result of decoding the rest.
pub open spec fn prepend(tv: TokenView, r: Result<Seq<TokenView>, WalletError>) -> Result<Seq<TokenView>, WalletError> {
    match r {
        Ok(ts) => Ok(seq![tv] + ts),
        Err(e) => Err(e),
    }
}

/// Decoding `k` entries of a payload starting at `off`.
pub open spec fn parse_entries(p: Seq<u8>, off: int, k: nat) -> Result<Seq<TokenView>, WalletError>
    decreases k,
{
    if k == 0 {
        Ok(Seq::empty())
    } else if off + 4 > p.len() {
        Err(WalletError::InvalidFormat)
    } else {
        let l = vstd::bytes::spec_u32_from_le_bytes(p.subrange(off, off + 4)) as int;
        if off + 4 + l > p.len() {
            Err(WalletError::InvalidFormat)
        } else {
            match spec_deserialize(p.subrange(off + 4, off + 4 + l)) {
                Err(e) => Err(WalletError::TokenError(e)),
                Ok(tv) => prepend(tv, parse_entries(p, off + 4 + l, (k - 1) as nat)),
            }
        }
    }
}

/// Decoding a stored wallet with a passphrase, before verifying tokens.
pub open spec fn spec_load(d: Seq<u8>, pass: Seq<u8>) -> Result<Seq<TokenView>, WalletError> {
    if d.len() < 36 || d.subrange(0, 4) != wallet_magic() {
        Err(WalletError::InvalidFormat)
    } else {
        let ct_len = vstd::bytes::spec_u32_from_le_bytes(d.subrange(32, 36)) as int;
        if 36 + ct_len > d.len() {
            Err(WalletError::InvalidFormat)
        } else {
            match crate::pct::secure_store::spec_aead_open(spec_derive_key(pass, d.subrange(4, 20)), d.subrange(20, 32), d.subrange(36, 36 + ct_len)) {
                None => Err(WalletError::WrongPassphrase),
                Some(p) => if p.len() < 4 {
                    Err(WalletError::InvalidFormat)
                } else {
                    let count = vstd::bytes::spec_u32_from_le_bytes(p.subrange(0, 4));
                    if count > MAX_TOKENS {
                        Err(WalletError::InvalidFormat)
                    } else {
                        parse_entries(p, 4, count as nat)
                    }
                },
            }
        }
    }
}

impl Wallet {
    /// The plaintext of the stored form.
    fn payload(&self) -> (p: Vec<u8>)
        requires
            self.wf(),
        ensures
            p@ == payload_bytes(views(self@)),
    {
        let ghost vs = views(self@);
        let mut payload: Vec<u8> = Vec::new();
        let count = vstd::bytes::u32_to_le_bytes(self.tokens.len() as u32);
        crate::bytes::append_bytes(&mut payload, count.as_slice());
        let ghost head = payload@;
        let mut i: usize = 0;
        while i < self.tokens.len()
            invariant
                vs == views(self.tokens@),
                0 <= i <= self.tokens@.len(),
                payload@ == head + entries_bytes(vs.take(i as int)),
            decreases self.tokens@.len() - i,
        {
            let tb = crate::pct::serde_token::serialize_token(&self.tokens[i]);
            let lb = vstd::bytes::u32_to_le_bytes(tb.len() as u32);
            crate::bytes::append_bytes(&mut payload, lb.as_slice());
            crate::bytes::append_bytes(&mut payload, tb.as_slice());
            proof {
                assert(vs.take(i + 1).drop_last() =~= vs.take(i as int));
                assert(vs.take(i + 1).last() == token_view(self.tokens@[i as int]));
            }
            i = i + 1;
        }
        assert(vs.take(vs.len() as int) =~= vs);
        assert(vs.len() == self.tokens@.len());
        payload
    }

    /// The encrypted stored form of the wallet. Refuses a passphrase shorter
    /// than the minimum.
    pub fn save(&self, passphrase: &[u8]) -> (r: Result<Vec<u8>, WalletError>)
        requires
            self.wf(),
            payload_bytes(views(self@)).len() / 64 < 0xFFFF_FFFF,
            passphrase@.len() <= 0xFFFF_FFFF,
        ensures
            passphrase@.len() < crate::pct::secure_store::MIN_PASSPHRASE_LEN ==> r == Err::<Vec<u8>, WalletError>(
                WalletError::TokenError(SerdeError::Storage(SecureStoreError::PassphraseTooShort {
                    min: crate::pct::secure_store::MIN_PASSPHRASE_LEN, got: passphrase@.len() as usize }))),
            passphrase@.len() >= crate::pct::secure_store::MIN_PASSPHRASE_LEN ==> r is Ok && {
                let out = r->Ok_0@;
                let ct = out.subrange(36, out.len() as int);
                &&& out.len() >= 36
                &&& out == stored_bytes(out.subrange(4, 20), out.subrange(20, 32), ct)
                &&& crate::pct::secure_store::spec_aead_open(spec_derive_key(passphrase@, out.subrange(4, 20)), out.subrange(20, 32), ct)
                    == Some(payload_bytes(views(self@)))
            },
            // Loading what was saved, with the same passphrase, gives the tokens back.
            passphrase@.len() >= crate::pct::secure_store::MIN_PASSPHRASE_LEN
                && payload_bytes(views(self@)).len() + 16 <= u32::MAX
                && (forall|i: int| 0 <= i < self@.len() ==> crate::pct::serde_token::wire_ok(#[trigger] self@[i])
                    && token_bytes(token_view(self@[i])).len() <= u32::MAX)
                ==> spec_load(r->Ok_0@, passphrase@) == Ok::<Seq<TokenView>, WalletError>(views(self@)),
    {
        let payload = self.payload();
        let encrypted = match crate::pct::secure_store::encrypt(payload.as_slice(), passphrase) {
            Ok(e) => e,
            Err(e) => return Err(WalletError::TokenError(SerdeError::Storage(e))),
        };
        let mut output: Vec<u8> = Vec::new();
        let magic: [u8; 4] = [0x53, 0x57, 0x4c, 0x54];
        crate::bytes::append_bytes(&mut output, &magic);
        crate::bytes::append_bytes(&mut output, &encrypted.salt);
        crate::bytes::append_bytes(&mut output, &encrypted.nonce);
        let cl = vstd::bytes::u32_to_le_bytes(encrypted.ciphertext.len() as u32);
        crate::bytes::append_bytes(&mut output, cl.as_slice());
        crate::bytes::append_bytes(&mut output, encrypted.ciphertext.as_slice());
        proof {
            assert(magic@ =~= wallet_magic());
            let out = output@;
            assert(out.subrange(4, 20) =~= encrypted.salt@);
            assert(out.subrange(20, 32) =~= encrypted.nonce@);
            assert(out.subrange(36, out.len() as int) =~= encrypted.ciphertext@);
            if payload_bytes(views(self@)).len() + 16 <= u32::MAX
                && (forall|i: int| 0 <= i < self@.len() ==> crate::pct::serde_token::wire_ok(#[trigger] self@[i])
                    && token_bytes(token_view(self@[i])).len() <= u32::MAX) {
                assert(out =~= stored_bytes(encrypted.salt@, encrypted.nonce@, encrypted.ciphertext@));
                law_load_inverts_save(self@, passphrase@, encrypted.salt@, encrypted.nonce@, encrypted.ciphertext@);
            }
        }
        Ok(output)
    }
}


/// Prepends decoded tokens to the result of decoding the rest.
pub open spec fn prepend_all(vs: Seq<TokenView>, r: Result<Seq<TokenView>, WalletError>) -> Result<Seq<TokenView>, WalletError> {
    match r {
        Ok(ts) => Ok(vs + ts),
        Err(e) => Err(e),
    }
}

impl Wallet {
    /// Loads a stored wallet: decrypts it with the passphrase, decodes
    /// every token and has `accept` verify each one, refusing the wallet at
    /// the first token it rejects.
    pub fn load<F: Fn(&ProofCarryingToken) -> bool>(data: &[u8], passphrase: &[u8], accept: F) -> (r: Result<Self, WalletError>)
        requires
            passphrase@.len() <= 0xFFFF_FFFF,
            forall|t: &ProofCarryingToken| #[trigger] accept.requires((t,)),
        ensures
            r is Ok ==> {
                let w = r->Ok_0;
                &&& w.wf()
                &&& spec_load(data@, passphrase@) == Ok::<Seq<TokenView>, WalletError>(views(w@))
                &&& forall|i: int| 0 <= i < w@.len() ==> accept.ensures((&w@[i],), true)
            },
            r is Err && r->Err_0 != WalletError::TokenVerificationFailed
                ==> spec_load(data@, passphrase@) == Err::<Seq<TokenView>, WalletError>(r->Err_0),
            spec_load(data@, passphrase@) is Ok ==> r is Ok || r == Err::<Self, WalletError>(WalletError::TokenVerificationFailed),
            // Data that decodes, and whose every token `accept` approves, loads.
            spec_load(data@, passphrase@) is Ok
                && (forall|t: &ProofCarryingToken, b: bool| #[trigger] accept.ensures((t,), b)
                    && spec_load(data@, passphrase@)->Ok_0.contains(token_view(*t)) ==> b)
                ==> r is Ok,
    {
        if data.len() < 36 {
            return Err(WalletError::InvalidFormat);
        }
        if !(data[0] == 0x53 && data[1] == 0x57 && data[2] == 0x4c && data[3] == 0x54) {
            assert(data@.subrange(0, 4) != wallet_magic()) by {
                if data@.subrange(0, 4) == wallet_magic() {
                    assert(data@[0] == data@.subrange(0, 4)[0]);
                    assert(data@[1] == data@.subrange(0, 4)[1]);
                    assert(data@[2] == data@.subrange(0, 4)[2]);
                    assert(data@[3] == data@.subrange(0, 4)[3]);
                }
            }
            return Err(WalletError::InvalidFormat);
        }
        assert(data@.subrange(0, 4) =~= wallet_magic());
        let salt = crate::bytes::copy_into16(data, 4);
        let nonce = crate::bytes::copy_into12(data, 20);
        let ct_len = crate::bytes::read_u32_at(data, 32) as usize;
        if ct_len > data.len() - 36 {
            return Err(WalletError::InvalidFormat);
        }
        let ciphertext = crate::bytes::sub_vec(data, 36, ct_len);
        let encrypted = EncryptedData { salt, nonce, ciphertext };
        let payload = match crate::pct::secure_store::decrypt(&encrypted, passphrase) {
            Ok(p) => p,
            Err(_) => return Err(WalletError::WrongPassphrase),
        };
        let ghost p = payload@;
        if payload.len() < 4 {
            return Err(WalletError::InvalidFormat);
        }
        let count = crate::bytes::read_u32_at(payload.as_slice(), 0);
        if count as usize > MAX_TOKENS {
            return Err(WalletError::InvalidFormat);
        }
        let mut offset: usize = 4;
        let mut tokens: Vec<ProofCarryingToken> = Vec::new();
        let mut i: u32 = 0;
        assert(data@.subrange(36, 36 + ct_len as int) == encrypted.ciphertext@);
        assert(spec_load(data@, passphrase@) == parse_entries(p, 4, count as nat));
        assert(views(tokens@) =~= Seq::<TokenView>::empty());
        while i < count
            invariant
                spec_load(data@, passphrase@) == parse_entries(p, 4, count as nat),
                p == payload@,
                count <= MAX_TOKENS,
                0 <= i <= count,
                tokens@.len() == i,
                4 <= offset <= p.len(),
                forall|t: &ProofCarryingToken| #[trigger] accept.requires((t,)),
                parse_entries(p, 4, count as nat) == prepend_all(views(tokens@), parse_entries(p, offset as int, (count - i) as nat)),
                forall|k: int| 0 <= k < tokens@.len() ==> accept.ensures((&tokens@[k],), true),
            decreases count - i,
        {
            if payload.len() - offset < 4 {
                return Err(WalletError::InvalidFormat);
            }
            let len = crate::bytes::read_u32_at(payload.as_slice(), offset) as usize;
            let body = offset + 4;
            if len > payload.len() - body {
                return Err(WalletError::InvalidFormat);
            }
            let bytes = crate::bytes::sub_vec(payload.as_slice(), body, len);
            let token = match crate::pct::serde_token::deserialize_token(bytes.as_slice()) {
                Ok(t) => t,
                Err(e) => return Err(WalletError::TokenError(e)),
            };
            let ok = accept(&token);
            if !ok {
                proof {
                    let tv = token_view(token);
                    assert(parse_entries(p, offset as int, (count - i) as nat)
                        == prepend(tv, parse_entries(p, body + len, (count - i - 1) as nat)));
                    if spec_load(data@, passphrase@) is Ok {
                        let ts = parse_entries(p, body + len, (count - i - 1) as nat)->Ok_0;
                        let all = spec_load(data@, passphrase@)->Ok_0;
                        assert(all == views(tokens@) + (seq![tv] + ts));
                        assert(all[i as int] == tv);
                        assert(all.contains(token_view(token)));
                    }
                }
                return Err(WalletError::TokenVerificationFailed);
            }
            proof {
                let tv = token_view(token);
                assert(parse_entries(p, offset as int, (count - i) as nat)
                    == prepend(tv, parse_entries(p, body + len, (count - i - 1) as nat)));
                assert(views(tokens@.push(token)) =~= views(tokens@) + seq![tv]);
                match parse_entries(p, body + len, (count - i - 1) as nat) {
                    Ok(ts) => { assert(views(tokens@) + (seq![tv] + ts) =~= (views(tokens@) + seq![tv]) + ts); },
                    Err(_) => {},
                }
            }
            tokens.push(token);
            offset = body + len;
            i = i + 1;
        }
        proof {
            assert(views(tokens@) + Seq::<TokenView>::empty() =~= views(tokens@));
        }
        Ok(Wallet { tokens })
    }
}


/// One entry of a payload.
pub open spec fn entry_bytes(tv: TokenView) -> Seq<u8> {
    vstd::bytes::spec_u32_to_le_bytes(token_bytes(tv).len() as u32) + token_bytes(tv)
}

proof fn lemma_entries_cons(x: TokenView, ys: Seq<TokenView>)
    ensures
        entries_bytes(seq![x] + ys) == entry_bytes(x) + entries_bytes(ys),
    decreases ys.len(),
{
    if ys.len() == 0 {
        assert((seq![x] + ys).drop_last() =~= Seq::<TokenView>::empty());
        assert(entries_bytes(Seq::<TokenView>::empty()) == Seq::<u8>::empty());
        assert(entries_bytes(seq![x] + ys) =~= entry_bytes(x) + entries_bytes(ys));
    } else {
        lemma_entries_cons(x, ys.drop_last());
        assert((seq![x] + ys).drop_last() =~= seq![x] + ys.drop_last());
        assert((seq![x] + ys).last() == ys.last());
        assert(entries_bytes(seq![x] + ys) =~= entry_bytes(x) + entries_bytes(ys));
    }
}

#[verifier::spinoff_prover]
#[verifier::rlimit(80)]
proof fn lemma_parse_entries(a: Seq<u8>, ts: Seq<ProofCarryingToken>, rest: Seq<u8>)
    requires
        forall|i: int| 0 <= i < ts.len() ==> crate::pct::serde_token::wire_ok(#[trigger] ts[i])
            && token_bytes(token_view(ts[i])).len() <= u32::MAX,
    ensures
        parse_entries(a + entries_bytes(views(ts)) + rest, a.len() as int, ts.len()) == Ok::<Seq<TokenView>, WalletError>(views(ts)),
    decreases ts.len(),
{
    vstd::bytes::lemma_auto_spec_u32_to_from_le_bytes();
    let vs = views(ts);
    if ts.len() == 0 {
        assert(vs =~= Seq::<TokenView>::empty());
        assert(entries_bytes(vs) == Seq::<u8>::empty());
    } else {
        let x = vs[0];
        let tl = ts.drop_first();
        assert(vs =~= seq![x] + views(tl));
        lemma_entries_cons(x, views(tl));
        let tb = token_bytes(x);
        let lb = vstd::bytes::spec_u32_to_le_bytes(tb.len() as u32);
        let d = a + entries_bytes(vs) + rest;
        let a2 = a + lb + tb;
        assert(d =~= a2 + entries_bytes(views(tl)) + rest);
        assert forall|i: int| 0 <= i < tl.len() implies crate::pct::serde_token::wire_ok(#[trigger] tl[i])
            && token_bytes(token_view(tl[i])).len() <= u32::MAX by {
            assert(tl[i] == ts[i + 1]);
        }
        lemma_parse_entries(a2, tl, rest);
        let off = a.len() as int;
        assert(d.subrange(off, off + 4) =~= lb);
        assert(spec_deserialize(d.subrange(off + 4, off + 4 + tb.len())) == Ok::<TokenView, SerdeError>(x)) by {
            assert(d.subrange(off + 4, off + 4 + tb.len()) =~= tb + Seq::<u8>::empty());
            crate::pct::serde_token::law_decode_inverts_encode(ts[0], Seq::empty());
        }
        assert(seq![x] + views(tl) == vs);
    }
}

/// Loading what `save` stored, with the same passphrase, gives back the
/// tokens in order (for tokens the format can carry).
pub proof fn law_load_inverts_save(ts: Seq<ProofCarryingToken>, pass: Seq<u8>, salt: Seq<u8>, nonce: Seq<u8>, ct: Seq<u8>)
    requires
        ts.len() <= MAX_TOKENS,
        forall|i: int| 0 <= i < ts.len() ==> crate::pct::serde_token::wire_ok(#[trigger] ts[i])
            && token_bytes(token_view(ts[i])).len() <= u32::MAX,
        salt.len() == 16,
        nonce.len() == 12,
        ct.len() <= u32::MAX,
        crate::pct::secure_store::spec_aead_open(spec_derive_key(pass, salt), nonce, ct) == Some(payload_bytes(views(ts))),
    ensures
        spec_load(stored_bytes(salt, nonce, ct), pass) == Ok::<Seq<TokenView>, WalletError>(views(ts)),
{
    vstd::bytes::lemma_auto_spec_u32_to_from_le_bytes();
    let d = stored_bytes(salt, nonce, ct);
    let cl = vstd::bytes::spec_u32_to_le_bytes(ct.len() as u32);
    assert(d.subrange(0, 4) =~= wallet_magic());
    assert(d.subrange(4, 20) =~= salt);
    assert(d.subrange(20, 32) =~= nonce);
    assert(d.subrange(32, 36) =~= cl);
    assert(d.subrange(36, 36 + ct.len() as int) =~= ct);
    let vs = views(ts);
    let p = payload_bytes(vs);
    let cnt = vstd::bytes::spec_u32_to_le_bytes(ts.len() as u32);
    assert(p.subrange(0, 4) =~= cnt);
    assert(p =~= cnt + entries_bytes(vs) + Seq::<u8>::empty());
    lemma_parse_entries(cnt, ts, Seq::empty());
}


/// `Σ_{i < n} ts[i].value`, without saturation.
pub open spec fn value_total(ts: Seq<ProofCarryingToken>, n: int) -> int
    decreases n,
{
    if n <= 0 { 0 } else { value_total(ts, n - 1) + ts[n - 1].value }
}

proof fn lemma_saturating_sum_push(ts: Seq<ProofCarryingToken>, t: ProofCarryingToken, n: int)
    requires
        0 <= n <= ts.len(),
    ensures
        saturating_sum(ts.push(t), n) == saturating_sum(ts, n),
    decreases n,
{
    if n > 0 {
        lemma_saturating_sum_push(ts, t, n - 1);
        assert(ts.push(t)[n - 1] == ts[n - 1]);
    }
}

proof fn lemma_value_total_nonneg(ts: Seq<ProofCarryingToken>, n: int)
    ensures
        value_total(ts, n) >= 0,
    decreases n,
{
    if n > 0 {
        lemma_value_total_nonneg(ts, n - 1);
    }
}

/// The balance is the sum of the values of every token held, whatever its
/// transfer count or bound, saturating at `u64::MAX`; and adding any token
/// of value `v` to a wallet raises its balance by `v` (saturating).
pub proof fn law_balance_counts_every_token(ts: Seq<ProofCarryingToken>, t: ProofCarryingToken)
    ensures
        saturating_sum(ts, ts.len() as int) as int
            == if value_total(ts, ts.len() as int) > u64::MAX { u64::MAX as int } else { value_total(ts, ts.len() as int) },
        saturating_sum(ts.push(t), ts.len() as int + 1) as int
            == if saturating_sum(ts, ts.len() as int) + t.value > u64::MAX { u64::MAX as int }
               else { saturating_sum(ts, ts.len() as int) + t.value },
    decreases ts.len(),
{
    lemma_saturating_sum_push(ts, t, ts.len() as int);
    assert(ts.push(t)[ts.len() as int] == t);
    if ts.len() > 0 {
        let init = ts.drop_last();
        law_balance_counts_every_token(init, ts.last());
        assert(init.push(ts.last()) =~= ts);
        lemma_value_total_nonneg(init, init.len() as int);
        lemma_saturating_sum_push(init, ts.last(), init.len() as int);
        assert forall|k: int| 0 <= k <= init.len() implies value_total(ts, k) == value_total(init, k) by {
            lemma_value_total_prefix(init, ts.last(), k);
        }
    }
}

proof fn lemma_value_total_prefix(ts: Seq<ProofCarryingToken>, t: ProofCarryingToken, n: int)
    requires
        0 <= n <= ts.len(),
    ensures
        value_total(ts.push(t), n) == value_total(ts, n),
    decreases n,
{
    if n > 0 {
        lemma_value_total_prefix(ts, t, n - 1);
        assert(ts.push(t)[n - 1] == ts[n - 1]);
    }
}

} // verus!
