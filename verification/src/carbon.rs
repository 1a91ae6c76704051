//! The carbon asset ledger: a token contract whose events feed the audit
//! trail.
//!
//! Token state lives in two maps: per-token data (immutable metadata, a
//! lifecycle status and a quality score) and per-holder balances keyed by
//! address and token.  Minting is the administrator's alone, burning the
//! retirement tracker's; a transfer to the retirement tracker retires the
//! token.  Callers arrive already authenticated, and the outcome of the
//! optional cross-contract regulatory check is handed in by the host
//! boundary that performed it.

use vstd::prelude::*;
use crate::bytes::{copy_bytes, string_eq};
use crate::kv::{as_map, distinct_keys, lemma_as_map_contains, lemma_as_map_index,
    lemma_as_map_push, lemma_as_map_update};

verus! {

/// The lifecycle states of a token.
#[derive(Clone, Copy, Debug, PartialEq, Eq, Structural)]
pub enum TokenStatus {
    /// Initial state after minting.
    Issued,
    /// Available for purchase on a marketplace.
    Listed,
    /// Temporarily locked, for example pending verification.
    Locked,
    /// Permanently retired; non-transferable.
    Retired,
    /// Invalidated by a reversal or fraud; non-transferable.
    Invalidated,
}

/// The reasons for which a ledger operation is rejected.
#[derive(Clone, Copy, Debug, PartialEq, Eq, Structural)]
pub enum AssetError {
    /// A second attempt to initialize the contract.
    AlreadyInitialized,
    /// The caller is not the identity the operation is reserved to.
    NotAuthorized,
    /// The amount is zero or negative.
    AmountNotPositive,
    /// A mint under a token identifier that already exists.
    TokenAlreadyExists,
    /// No token exists under the identifier.
    TokenNotFound,
    /// The token is retired or invalidated and cannot be transferred.
    TokenFrozen,
    /// The token is locked and cannot be transferred.
    TokenLocked,
    /// The sender's balance does not cover the amount.
    InsufficientBalance,
    /// The configured regulatory check rejected the transfer.
    RegulatoryRejected,
}

/// Immutable core data of a token.
pub struct CarbonAssetMetadata {
    /// Unique project identifier.
    pub project_id: Vec<u8>,
    /// Vintage year as seconds since the epoch.
    pub vintage_year: u64,
    /// Identity of the methodology registry entry the token rests on.
    pub methodology_id: String,
    /// Digest of the geolocation data.
    pub geolocation_hash: Vec<u8>,
}

/// The mathematical value of a token's metadata.
pub struct MetadataView {
    pub project_id: Seq<u8>,
    pub vintage_year: u64,
    pub methodology_id: Seq<char>,
    pub geolocation_hash: Seq<u8>,
}

impl View for CarbonAssetMetadata {
    type V = MetadataView;

    open spec fn view(&self) -> MetadataView {
        MetadataView {
            project_id: self.project_id@,
            vintage_year: self.vintage_year,
            methodology_id: self.methodology_id@,
            geolocation_hash: self.geolocation_hash@,
        }
    }
}

impl CarbonAssetMetadata {
    /// A field-for-field copy of the metadata.
    pub fn duplicate(&self) -> (r: CarbonAssetMetadata)
        ensures
            r@ == self@,
    {
        CarbonAssetMetadata {
            project_id: copy_bytes(&self.project_id),
            vintage_year: self.vintage_year,
            methodology_id: self.methodology_id.clone(),
            geolocation_hash: copy_bytes(&self.geolocation_hash),
        }
    }
}

/// Per-token state: metadata, lifecycle status and quality score.
pub struct TokenData {
    pub metadata: CarbonAssetMetadata,
    pub status: TokenStatus,
    pub quality_score: i128,
}

/// The mathematical value of a token's state.
pub struct TokenDataView {
    pub metadata: MetadataView,
    pub status: TokenStatus,
    pub quality_score: i128,
}

impl View for TokenData {
    type V = TokenDataView;

    open spec fn view(&self) -> TokenDataView {
        TokenDataView {
            metadata: self.metadata@,
            status: self.status,
            quality_score: self.quality_score,
        }
    }
}

impl TokenData {
    /// A field-for-field copy of the token state.
    pub fn duplicate(&self) -> (r: TokenData)
        ensures
            r@ == self@,
    {
        TokenData {
            metadata: self.metadata.duplicate(),
            status: self.status,
            quality_score: self.quality_score,
        }
    }
}

/// The key a balance is stored under: holder address and token.
pub struct BalanceKey {
    pub address: String,
    pub token_id: u128,
}

/// The identities and token denomination fixed at initialization.
pub struct AssetConfig {
    /// The treasury identity; the only identity that may mint.
    pub admin: String,
    /// The retirement tracker; the only identity that may burn.
    pub retirement_tracker: String,
    /// Token name.
    pub name: String,
    /// Token symbol.
    pub symbol: String,
    /// Token decimals.
    pub decimals: u32,
}

/// A token is retired or invalidated: permanently non-transferable.
pub open spec fn frozen(st: TokenStatus) -> bool {
    st == TokenStatus::Retired || st == TokenStatus::Invalidated
}

/// A balance map entry, or zero where none exists.
pub open spec fn bal_or(m: Map<(Seq<char>, u128), i128>, k: (Seq<char>, u128)) -> i128 {
    if m.dom().contains(k) {
        m[k]
    } else {
        0
    }
}

/// The carbon asset contract state.
pub struct CarbonAsset {
    pub config: Option<AssetConfig>,
    pub regulatory_check: Option<String>,
    pub tokens: Vec<(u128, TokenData)>,
    pub balances: Vec<(BalanceKey, i128)>,
}

impl CarbonAsset {
    /// The token entries as identifier/state pairs.
    pub open spec fn token_pairs(self) -> Seq<(u128, TokenDataView)> {
        self.tokens@.map(|i: int, e: (u128, TokenData)| (e.0, e.1@))
    }

    /// The tokens as a map from identifier to state.
    pub open spec fn tokens_map(self) -> Map<u128, TokenDataView> {
        as_map(self.token_pairs())
    }

    /// The balance entries as (address, token)/amount pairs.
    pub open spec fn balance_pairs(self) -> Seq<((Seq<char>, u128), i128)> {
        self.balances@.map(|i: int, e: (BalanceKey, i128)| ((e.0.address@, e.0.token_id), e.1))
    }

    /// The balances as a map from (address, token) to amount.
    pub open spec fn balances_map(self) -> Map<(Seq<char>, u128), i128> {
        as_map(self.balance_pairs())
    }

    /// The balance of a holder in a token; unknown pairs hold zero.
    pub open spec fn balance_of(self, address: Seq<char>, token_id: u128) -> i128 {
        bal_or(self.balances_map(), (address, token_id))
    }

    /// Whether the contract has been initialized.
    pub open spec fn initialized(self) -> bool {
        self.config is Some
    }

    /// Whether the caller is the administrator.
    pub open spec fn is_admin(self, caller: Seq<char>) -> bool {
        match self.config {
            Some(c) => c.admin@ == caller,
            None => false,
        }
    }

    /// Whether the caller is the retirement tracker.
    pub open spec fn is_retirement_tracker(self, caller: Seq<char>) -> bool {
        match self.config {
            Some(c) => c.retirement_tracker@ == caller,
            None => false,
        }
    }

    /// Well-formedness: each key holds at most one entry, and tokens
    /// exist only once the contract is initialized.
    pub open spec fn wf(self) -> bool {
        &&& distinct_keys(self.token_pairs())
        &&& distinct_keys(self.balance_pairs())
        &&& self.token_pairs().len() > 0 ==> self.initialized()
    }

    /// The outcome a mint has against a given state.
    pub open spec fn mint_outcome(self, caller: Seq<char>, amount: i128, token_id: u128)
        -> Result<(), AssetError> {
        if !self.is_admin(caller) {
            Err(AssetError::NotAuthorized)
        } else if amount <= 0 {
            Err(AssetError::AmountNotPositive)
        } else if self.tokens_map().dom().contains(token_id) {
            Err(AssetError::TokenAlreadyExists)
        } else {
            Ok(())
        }
    }

    /// The outcome a transfer has against a given state, given the
    /// verdict of the configured regulatory check if there is one.
    pub open spec fn transfer_outcome(
        self,
        from: Seq<char>,
        amount: i128,
        token_id: u128,
        hook_approved: bool,
    ) -> Result<(), AssetError> {
        if amount <= 0 {
            Err(AssetError::AmountNotPositive)
        } else if !self.tokens_map().dom().contains(token_id) {
            Err(AssetError::TokenNotFound)
        } else if frozen(self.tokens_map()[token_id].status) {
            Err(AssetError::TokenFrozen)
        } else if self.tokens_map()[token_id].status == TokenStatus::Locked {
            Err(AssetError::TokenLocked)
        } else if self.regulatory_check is Some && !hook_approved {
            Err(AssetError::RegulatoryRejected)
        } else if self.balance_of(from, token_id) < amount {
            Err(AssetError::InsufficientBalance)
        } else {
            Ok(())
        }
    }

    /// The outcome a burn has against a given state.
    pub open spec fn burn_outcome(self, caller: Seq<char>, from: Seq<char>, amount: i128, token_id: u128)
        -> Result<(), AssetError> {
        if !self.is_retirement_tracker(caller) {
            Err(AssetError::NotAuthorized)
        } else if amount <= 0 {
            Err(AssetError::AmountNotPositive)
        } else if self.balance_of(from, token_id) < amount {
            Err(AssetError::InsufficientBalance)
        } else if !self.tokens_map().dom().contains(token_id) {
            Err(AssetError::TokenNotFound)
        } else {
            Ok(())
        }
    }

    /// The outcome a status or quality update has against a given state.
    pub open spec fn update_outcome(self, caller: Seq<char>, token_id: u128)
        -> Result<(), AssetError> {
        if !self.is_admin(caller) {
            Err(AssetError::NotAuthorized)
        } else if !self.tokens_map().dom().contains(token_id) {
            Err(AssetError::TokenNotFound)
        } else {
            Ok(())
        }
    }

    /// An empty, uninitialized contract.
    pub fn new() -> (r: Self)
        ensures
            r.wf(),
            !r.initialized(),
            r.regulatory_check is None,
            r.tokens_map() == Map::<u128, TokenDataView>::empty(),
            r.balances_map() == Map::<(Seq<char>, u128), i128>::empty(),
    {
        let r = CarbonAsset {
            config: None,
            regulatory_check: None,
            tokens: Vec::new(),
            balances: Vec::new(),
        };
        proof {
            assert(r.token_pairs() =~= Seq::<(u128, TokenDataView)>::empty());
            assert(r.balance_pairs() =~= Seq::<((Seq<char>, u128), i128)>::empty());
        }
        r
    }

    /// Fixes the administrator, the retirement tracker and the token
    /// denomination; refused when the contract is already initialized.
    pub fn initialize(
        &mut self,
        admin: String,
        retirement_tracker: String,
        name: String,
        symbol: String,
        decimals: u32,
    ) -> (r: Result<(), AssetError>)
        requires
            old(self).wf(),
        ensures
            final(self).wf(),
            old(self).initialized() ==> r == Err::<(), AssetError>(AssetError::AlreadyInitialized)
                && *final(self) == *old(self),
            !old(self).initialized() ==> r == Ok::<(), AssetError>(())
                && final(self).initialized()
                && final(self).is_admin(admin@)
                && final(self).is_retirement_tracker(retirement_tracker@)
                && final(self).config == (Some(AssetConfig {
                    admin, retirement_tracker, name, symbol, decimals,
                }))
                && final(self).regulatory_check == old(self).regulatory_check
                && final(self).tokens == old(self).tokens
                && final(self).balances == old(self).balances,
    {
        if self.config.is_some() {
            return Err(AssetError::AlreadyInitialized);
        }
        self.config = Some(AssetConfig { admin, retirement_tracker, name, symbol, decimals });
        Ok(())
    }

    /// Configures the regulatory check hook; only the administrator may.
    pub fn set_regulatory_check(&mut self, caller: &String, regulatory_check: String)
        -> (r: Result<(), AssetError>)
        requires
            old(self).wf(),
        ensures
            final(self).wf(),
            !old(self).is_admin(caller@) ==> r == Err::<(), AssetError>(AssetError::NotAuthorized)
                && *final(self) == *old(self),
            old(self).is_admin(caller@) ==> r == Ok::<(), AssetError>(())
                && final(self).regulatory_check == Some(regulatory_check)
                && final(self).config == old(self).config
                && final(self).tokens == old(self).tokens
                && final(self).balances == old(self).balances,
    {
        let admin_matches = match &self.config {
            Some(c) => string_eq(&c.admin, caller),
            None => false,
        };
        if !admin_matches {
            return Err(AssetError::NotAuthorized);
        }
        self.regulatory_check = Some(regulatory_check);
        Ok(())
    }

    /// Index of the entry of a token, if any.
    fn find_token(&self, token_id: u128) -> (r: Option<usize>)
        ensures
            match r {
                Some(i) => i < self.tokens@.len() && self.tokens@[i as int].0 == token_id,
                None => forall|j: int| 0 <= j < self.tokens@.len()
                    ==> self.tokens@[j].0 != token_id,
            },
    {
        let mut i: usize = 0;
        while i < self.tokens.len()
            invariant
                0 <= i <= self.tokens@.len(),
                forall|j: int| 0 <= j < i ==> self.tokens@[j].0 != token_id,
            decreases self.tokens@.len() - i,
        {
            if self.tokens[i].0 == token_id {
                return Some(i);
            }
            i += 1;
        }
        None
    }

    /// Index of the balance entry of a holder and token, if any.
    fn find_balance(&self, address: &String, token_id: u128) -> (r: Option<usize>)
        ensures
            match r {
                Some(i) => i < self.balances@.len()
                    && self.balances@[i as int].0.address@ == address@
                    && self.balances@[i as int].0.token_id == token_id,
                None => forall|j: int| 0 <= j < self.balances@.len()
                    ==> !(self.balances@[j].0.address@ == address@
                        && self.balances@[j].0.token_id == token_id),
            },
    {
        let mut i: usize = 0;
        while i < self.balances.len()
            invariant
                0 <= i <= self.balances@.len(),
                forall|j: int| 0 <= j < i
                    ==> !(self.balances@[j].0.address@ == address@
                        && self.balances@[j].0.token_id == token_id),
            decreases self.balances@.len() - i,
        {
            if self.balances[i].0.token_id == token_id && string_eq(&self.balances[i].0.address, address) {
                return Some(i);
            }
            i += 1;
        }
        None
    }

    /// The balance of a holder in a token; unknown pairs hold zero.
    pub fn balance(&self, address: &String, token_id: u128) -> (r: i128)
        requires
            self.wf(),
        ensures
            r == self.balance_of(address@, token_id),
    {
        match self.find_balance(address, token_id) {
            Some(i) => {
                proof {
                    assert(self.balance_pairs()[i as int].0 == (address@, token_id));
                    lemma_as_map_index(self.balance_pairs(), i as int);
                }
                self.balances[i].1
            }
            None => {
                proof {
                    assert forall|j: int| 0 <= j < self.balance_pairs().len()
                        implies self.balance_pairs()[j].0 != (address@, token_id) by {
                        assert(!(self.balances@[j].0.address@ == address@
                            && self.balances@[j].0.token_id == token_id));
                    }
                    lemma_as_map_contains(self.balance_pairs(), (address@, token_id));
                }
                0
            }
        }
    }

    /// Inserts or overwrites a balance entry.
    fn set_balance(&mut self, address: &String, token_id: u128, amount: i128)
        requires
            old(self).wf(),
        ensures
            final(self).wf(),
            final(self).balances_map()
                == old(self).balances_map().insert((address@, token_id), amount),
            final(self).config == old(self).config,
            final(self).regulatory_check == old(self).regulatory_check,
            final(self).tokens == old(self).tokens,
    {
        let ghost k = (address@, token_id);
        match self.find_balance(address, token_id) {
            Some(i) => {
                self.balances[i] = (BalanceKey { address: address.clone(), token_id }, amount);
                proof {
                    let s = old(self).balance_pairs();
                    assert(s[i as int].0 == k);
                    assert forall|j: int| 0 <= j < self.balance_pairs().len()
                        implies self.balance_pairs()[j] == s.update(i as int, (k, amount))[j] by {
                        if j != i as int {
                            assert(self.balances@[j] == old(self).balances@[j]);
                        }
                    }
                    assert(self.balance_pairs() =~= s.update(i as int, (k, amount)));
                    lemma_as_map_update(s, i as int, amount);
                    assert(self.token_pairs() =~= old(self).token_pairs());
                }
            }
            None => {
                self.balances.push((BalanceKey { address: address.clone(), token_id }, amount));
                proof {
                    let s = old(self).balance_pairs();
                    assert forall|j: int| 0 <= j < s.len() implies s[j].0 != k by {
                        assert(!(old(self).balances@[j].0.address@ == address@
                            && old(self).balances@[j].0.token_id == token_id));
                    }
                    assert(self.balance_pairs() =~= s.push((k, amount)));
                    lemma_as_map_push(s, k, amount);
                    assert(self.token_pairs() =~= old(self).token_pairs());
                }
            }
        }
    }

    /// Inserts or overwrites a token entry.
    fn set_token(&mut self, token_id: u128, data: TokenData)
        requires
            old(self).wf(),
            old(self).initialized(),
        ensures
            final(self).wf(),
            final(self).tokens_map() == old(self).tokens_map().insert(token_id, data@),
            final(self).config == old(self).config,
            final(self).regulatory_check == old(self).regulatory_check,
            final(self).balances == old(self).balances,
    {
        let ghost dv = data@;
        match self.find_token(token_id) {
            Some(i) => {
                self.tokens[i] = (token_id, data);
                proof {
                    let s = old(self).token_pairs();
                    assert(s[i as int].0 == token_id);
                    assert forall|j: int| 0 <= j < self.token_pairs().len()
                        implies self.token_pairs()[j] == s.update(i as int, (token_id, dv))[j] by {
                        if j != i as int {
                            assert(self.tokens@[j] == old(self).tokens@[j]);
                        }
                    }
                    assert(self.token_pairs() =~= s.update(i as int, (token_id, dv)));
                    lemma_as_map_update(s, i as int, dv);
                    assert(self.balance_pairs() =~= old(self).balance_pairs());
                }
            }
            None => {
                self.tokens.push((token_id, data));
                proof {
                    let s = old(self).token_pairs();
                    assert(self.token_pairs() =~= s.push((token_id, dv)));
                    lemma_as_map_push(s, token_id, dv);
                    assert(self.balance_pairs() =~= old(self).balance_pairs());
                }
            }
        }
    }

    /// Mints new credits of a fresh token to a holder; the administrator
    /// alone may mint, and the amount must be positive.  The token starts
    /// issued, with the default quality score.
    pub fn mint(
        &mut self,
        caller: &String,
        to: &String,
        amount: i128,
        token_id: u128,
        metadata: CarbonAssetMetadata,
    ) -> (r: Result<(), AssetError>)
        requires
            old(self).wf(),
            old(self).mint_outcome(caller@, amount, token_id) is Ok
                ==> old(self).balance_of(to@, token_id) + amount <= i128::MAX,
        ensures
            final(self).wf(),
            r == old(self).mint_outcome(caller@, amount, token_id),
            r is Err ==> *final(self) == *old(self),
            r is Ok ==> final(self).tokens_map() == old(self).tokens_map().insert(
                    token_id,
                    (TokenDataView {
                        metadata: metadata@,
                        status: TokenStatus::Issued,
                        quality_score: 100,
                    }),
                )
                && final(self).balances_map() == old(self).balances_map().insert(
                    (to@, token_id),
                    (old(self).balance_of(to@, token_id) + amount) as i128,
                )
                && final(self).config == old(self).config
                && final(self).regulatory_check == old(self).regulatory_check,
    {
        let admin_matches = match &self.config {
            Some(c) => string_eq(&c.admin, caller),
            None => false,
        };
        if !admin_matches {
            return Err(AssetError::NotAuthorized);
        }
        if amount <= 0 {
            return Err(AssetError::AmountNotPositive);
        }
        match self.find_token(token_id) {
            Some(i) => {
                proof {
                    assert(self.token_pairs()[i as int].0 == token_id);
                    lemma_as_map_contains(self.token_pairs(), token_id);
                }
                return Err(AssetError::TokenAlreadyExists);
            }
            None => {
                proof {
                    assert forall|j: int| 0 <= j < self.token_pairs().len()
                        implies self.token_pairs()[j].0 != token_id by {
                        assert(self.tokens@[j].0 != token_id);
                    }
                    lemma_as_map_contains(self.token_pairs(), token_id);
                }
            }
        }
        let current = self.balance(to, token_id);
        self.set_token(token_id, TokenData {
            metadata,
            status: TokenStatus::Issued,
            quality_score: 100,
        });
        self.set_balance(to, token_id, current + amount);
        Ok(())
    }

    /// Transfers between holders.  Only issued or listed tokens move, a
    /// configured regulatory check must have approved, and a transfer to
    /// the retirement tracker retires the token.  `hook_approved` is the
    /// verdict of the regulatory check the host boundary performed; it is
    /// consulted only when a check is configured.
    pub fn transfer(
        &mut self,
        from: &String,
        to: &String,
        amount: i128,
        token_id: u128,
        hook_approved: bool,
    ) -> (r: Result<(), AssetError>)
        requires
            old(self).wf(),
            old(self).transfer_outcome(from@, amount, token_id, hook_approved) is Ok
                && from@ != to@
                ==> old(self).balance_of(to@, token_id) + amount <= i128::MAX,
        ensures
            final(self).wf(),
            r == old(self).transfer_outcome(from@, amount, token_id, hook_approved),
            r is Err ==> *final(self) == *old(self),
            r is Ok ==> ({
                let m1 = old(self).balances_map().insert(
                    (from@, token_id),
                    (old(self).balance_of(from@, token_id) - amount) as i128,
                );
                &&& final(self).balances_map() == m1.insert(
                    (to@, token_id),
                    (bal_or(m1, (to@, token_id)) + amount) as i128,
                )
                &&& final(self).config == old(self).config
                &&& final(self).regulatory_check == old(self).regulatory_check
                &&& old(self).is_retirement_tracker(to@) ==> final(self).tokens_map()
                    == old(self).tokens_map().insert(token_id, (TokenDataView {
                        metadata: old(self).tokens_map()[token_id].metadata,
                        status: TokenStatus::Retired,
                        quality_score: old(self).tokens_map()[token_id].quality_score,
                    }))
                &&& !old(self).is_retirement_tracker(to@)
                    ==> final(self).tokens_map() == old(self).tokens_map()
            }),
    {
        if amount <= 0 {
            return Err(AssetError::AmountNotPositive);
        }
        let status = match self.find_token(token_id) {
            Some(i) => {
                proof {
                    assert(self.token_pairs()[i as int].0 == token_id);
                    lemma_as_map_index(self.token_pairs(), i as int);
                }
                self.tokens[i].1.status
            }
            None => {
                proof {
                    assert forall|j: int| 0 <= j < self.token_pairs().len()
                        implies self.token_pairs()[j].0 != token_id by {
                        assert(self.tokens@[j].0 != token_id);
                    }
                    lemma_as_map_contains(self.token_pairs(), token_id);
                }
                return Err(AssetError::TokenNotFound);
            }
        };
        match status {
            TokenStatus::Retired | TokenStatus::Invalidated => {
                return Err(AssetError::TokenFrozen);
            }
            TokenStatus::Locked => {
                return Err(AssetError::TokenLocked);
            }
            TokenStatus::Issued | TokenStatus::Listed => {}
        }
        if self.regulatory_check.is_some() && !hook_approved {
            return Err(AssetError::RegulatoryRejected);
        }
        let from_bal = self.balance(from, token_id);
        if from_bal < amount {
            return Err(AssetError::InsufficientBalance);
        }
        self.set_balance(from, token_id, from_bal - amount);
        let to_bal = self.balance(to, token_id);
        self.set_balance(to, token_id, to_bal + amount);
        let tracker_matches = match &self.config {
            Some(c) => string_eq(&c.retirement_tracker, to),
            None => false,
        };
        if tracker_matches {
            match self.find_token(token_id) {
                Some(i) => {
                    proof {
                        assert(self.token_pairs()[i as int].0 == token_id);
                        lemma_as_map_index(self.token_pairs(), i as int);
                        lemma_as_map_contains(self.token_pairs(), token_id);
                    }
                    let nd = TokenData {
                        metadata: self.tokens[i].1.metadata.duplicate(),
                        status: TokenStatus::Retired,
                        quality_score: self.tokens[i].1.quality_score,
                    };
                    self.set_token(token_id, nd);
                }
                None => {
                    proof {
                        assert forall|j: int| 0 <= j < self.token_pairs().len()
                            implies self.token_pairs()[j].0 != token_id by {
                            assert(self.tokens@[j].0 != token_id);
                        }
                        lemma_as_map_contains(self.token_pairs(), token_id);
                        assert(false);
                    }
                }
            }
        }
        Ok(())
    }

    /// Burns credits from a holder; the retirement tracker alone may, and
    /// the holder's balance must cover the amount.
    pub fn burn(&mut self, caller: &String, from: &String, amount: i128, token_id: u128)
        -> (r: Result<(), AssetError>)
        requires
            old(self).wf(),
        ensures
            final(self).wf(),
            r == old(self).burn_outcome(caller@, from@, amount, token_id),
            r is Err ==> *final(self) == *old(self),
            r is Ok ==> final(self).balances_map() == old(self).balances_map().insert(
                    (from@, token_id),
                    (old(self).balance_of(from@, token_id) - amount) as i128,
                )
                && final(self).tokens == old(self).tokens
                && final(self).config == old(self).config
                && final(self).regulatory_check == old(self).regulatory_check,
    {
        let tracker_matches = match &self.config {
            Some(c) => string_eq(&c.retirement_tracker, caller),
            None => false,
        };
        if !tracker_matches {
            return Err(AssetError::NotAuthorized);
        }
        if amount <= 0 {
            return Err(AssetError::AmountNotPositive);
        }
        let from_bal = self.balance(from, token_id);
        if from_bal < amount {
            return Err(AssetError::InsufficientBalance);
        }
        match self.find_token(token_id) {
            Some(i) => {
                proof {
                    assert(self.token_pairs()[i as int].0 == token_id);
                    lemma_as_map_contains(self.token_pairs(), token_id);
                }
            }
            None => {
                proof {
                    assert forall|j: int| 0 <= j < self.token_pairs().len()
                        implies self.token_pairs()[j].0 != token_id by {
                        assert(self.tokens@[j].0 != token_id);
                    }
                    lemma_as_map_contains(self.token_pairs(), token_id);
                }
                return Err(AssetError::TokenNotFound);
            }
        }
        self.set_balance(from, token_id, from_bal - amount);
        Ok(())
    }

    /// Sets a token's lifecycle status; the administrator alone may.
    pub fn update_status(&mut self, caller: &String, token_id: u128, status: TokenStatus)
        -> (r: Result<(), AssetError>)
        requires
            old(self).wf(),
        ensures
            final(self).wf(),
            r == old(self).update_outcome(caller@, token_id),
            r is Err ==> *final(self) == *old(self),
            r is Ok ==> final(self).tokens_map() == old(self).tokens_map().insert(
                    token_id,
                    (TokenDataView {
                        metadata: old(self).tokens_map()[token_id].metadata,
                        status,
                        quality_score: old(self).tokens_map()[token_id].quality_score,
                    }),
                )
                && final(self).balances == old(self).balances
                && final(self).config == old(self).config
                && final(self).regulatory_check == old(self).regulatory_check,
    {
        let admin_matches = match &self.config {
            Some(c) => string_eq(&c.admin, caller),
            None => false,
        };
        if !admin_matches {
            return Err(AssetError::NotAuthorized);
        }
        match self.find_token(token_id) {
            Some(i) => {
                proof {
                    assert(self.token_pairs()[i as int].0 == token_id);
                    lemma_as_map_index(self.token_pairs(), i as int);
                    lemma_as_map_contains(self.token_pairs(), token_id);
                }
                let nd = TokenData {
                    metadata: self.tokens[i].1.metadata.duplicate(),
                    status,
                    quality_score: self.tokens[i].1.quality_score,
                };
                self.set_token(token_id, nd);
                Ok(())
            }
            None => {
                proof {
                    assert forall|j: int| 0 <= j < self.token_pairs().len()
                        implies self.token_pairs()[j].0 != token_id by {
                        assert(self.tokens@[j].0 != token_id);
                    }
                    lemma_as_map_contains(self.token_pairs(), token_id);
                }
                Err(AssetError::TokenNotFound)
            }
        }
    }

    /// Sets a token's quality score; the administrator alone may.
    pub fn update_quality_score(&mut self, caller: &String, token_id: u128, quality_score: i128)
        -> (r: Result<(), AssetError>)
        requires
            old(self).wf(),
        ensures
            final(self).wf(),
            r == old(self).update_outcome(caller@, token_id),
            r is Err ==> *final(self) == *old(self),
            r is Ok ==> final(self).tokens_map() == old(self).tokens_map().insert(
                    token_id,
                    (TokenDataView {
                        metadata: old(self).tokens_map()[token_id].metadata,
                        status: old(self).tokens_map()[token_id].status,
                        quality_score,
                    }),
                )
                && final(self).balances == old(self).balances
                && final(self).config == old(self).config
                && final(self).regulatory_check == old(self).regulatory_check,
    {
        let admin_matches = match &self.config {
            Some(c) => string_eq(&c.admin, caller),
            None => false,
        };
        if !admin_matches {
            return Err(AssetError::NotAuthorized);
        }
        match self.find_token(token_id) {
            Some(i) => {
                proof {
                    assert(self.token_pairs()[i as int].0 == token_id);
                    lemma_as_map_index(self.token_pairs(), i as int);
                    lemma_as_map_contains(self.token_pairs(), token_id);
                }
                let nd = TokenData {
                    metadata: self.tokens[i].1.metadata.duplicate(),
                    status: self.tokens[i].1.status,
                    quality_score,
                };
                self.set_token(token_id, nd);
                Ok(())
            }
            None => {
                proof {
                    assert forall|j: int| 0 <= j < self.token_pairs().len()
                        implies self.token_pairs()[j].0 != token_id by {
                        assert(self.tokens@[j].0 != token_id);
                    }
                    lemma_as_map_contains(self.token_pairs(), token_id);
                }
                Err(AssetError::TokenNotFound)
            }
        }
    }

    /// The state of a token; absent is not an error.
    pub fn get_token_data(&self, token_id: u128) -> (r: Option<TokenData>)
        requires
            self.wf(),
        ensures
            match r {
                Some(d) => self.tokens_map().dom().contains(token_id)
                    && d@ == self.tokens_map()[token_id],
                None => !self.tokens_map().dom().contains(token_id),
            },
    {
        match self.find_token(token_id) {
            Some(i) => {
                proof {
                    assert(self.token_pairs()[i as int].0 == token_id);
                    lemma_as_map_index(self.token_pairs(), i as int);
                }
                Some(self.tokens[i].1.duplicate())
            }
            None => {
                proof {
                    assert forall|j: int| 0 <= j < self.token_pairs().len()
                        implies self.token_pairs()[j].0 != token_id by {
                        assert(self.tokens@[j].0 != token_id);
                    }
                    lemma_as_map_contains(self.token_pairs(), token_id);
                }
                None
            }
        }
    }

    /// The lifecycle status of a token.
    pub fn get_status(&self, token_id: u128) -> (r: Option<TokenStatus>)
        requires
            self.wf(),
        ensures
            match r {
                Some(st) => self.tokens_map().dom().contains(token_id)
                    && st == self.tokens_map()[token_id].status,
                None => !self.tokens_map().dom().contains(token_id),
            },
    {
        match self.get_token_data(token_id) {
            Some(d) => Some(d.status),
            None => None,
        }
    }

    /// The immutable metadata of a token.
    pub fn get_metadata(&self, token_id: u128) -> (r: Option<CarbonAssetMetadata>)
        requires
            self.wf(),
        ensures
            match r {
                Some(m) => self.tokens_map().dom().contains(token_id)
                    && m@ == self.tokens_map()[token_id].metadata,
                None => !self.tokens_map().dom().contains(token_id),
            },
    {
        match self.get_token_data(token_id) {
            Some(d) => Some(d.metadata),
            None => None,
        }
    }

    /// The quality score of a token.
    pub fn get_quality_score(&self, token_id: u128) -> (r: Option<i128>)
        requires
            self.wf(),
        ensures
            match r {
                Some(q) => self.tokens_map().dom().contains(token_id)
                    && q == self.tokens_map()[token_id].quality_score,
                None => !self.tokens_map().dom().contains(token_id),
            },
    {
        match self.get_token_data(token_id) {
            Some(d) => Some(d.quality_score),
            None => None,
        }
    }

    /// The administrator identity.
    pub fn admin(&self) -> (r: String)
        requires
            self.wf(),
            self.initialized(),
        ensures
            self.is_admin(r@),
    {
        match &self.config {
            Some(c) => c.admin.clone(),
            None => {
                proof {
                    assert(false);
                }
                String::new()
            }
        }
    }

    /// The retirement tracker identity.
    pub fn retirement_tracker(&self) -> (r: String)
        requires
            self.wf(),
            self.initialized(),
        ensures
            self.is_retirement_tracker(r@),
    {
        match &self.config {
            Some(c) => c.retirement_tracker.clone(),
            None => {
                proof {
                    assert(false);
                }
                String::new()
            }
        }
    }

    /// The token name.
    pub fn name(&self) -> (r: String)
        requires
            self.wf(),
            self.initialized(),
        ensures
            match self.config {
                Some(c) => r@ == c.name@,
                None => false,
            },
    {
        match &self.config {
            Some(c) => c.name.clone(),
            None => {
                proof {
                    assert(false);
                }
                String::new()
            }
        }
    }

    /// The token symbol.
    pub fn symbol(&self) -> (r: String)
        requires
            self.wf(),
            self.initialized(),
        ensures
            match self.config {
                Some(c) => r@ == c.symbol@,
                None => false,
            },
    {
        match &self.config {
            Some(c) => c.symbol.clone(),
            None => {
                proof {
                    assert(false);
                }
                String::new()
            }
        }
    }

    /// The token decimals.
    pub fn decimals(&self) -> (r: u32)
        requires
            self.wf(),
            self.initialized(),
        ensures
            match self.config {
                Some(c) => r == c.decimals,
                None => false,
            },
    {
        match &self.config {
            Some(c) => c.decimals,
            None => {
                proof {
                    assert(false);
                }
                0
            }
        }
    }
}

} // verus!
