//! Issuance of asset-class identifiers: `TICKER-` followed by six characters
//! derived from an issuance counter.
use vstd::prelude::*;
use crate::error::MintError;

verus! {

/// Byte every suffix character starts from before the counter is added.
pub const ZERO_ASCII: u8 = 48;

/// Separator between the ticker and the suffix.
pub const DASH: u8 = 45;

/// Number of characters in the suffix.
pub const RAND_CHARS_LEN: usize = 6;

/// Shortest and longest ticker a valid identifier may carry.
pub const TICKER_MIN_LENGTH: usize = 3;
pub const TICKER_MAX_LENGTH: usize = 10;

/// The suffix character produced by counter value `n`: `'0' + n`, wrapping.
pub open spec fn suffix_char(n: u8) -> u8 {
    ((ZERO_ASCII as int + n as int) % 256) as u8
}

/// The identifier built from `ticker` while the counter holds `n`.
pub open spec fn token_id_spec(ticker: Seq<u8>, n: u8) -> Seq<u8> {
    ticker + seq![DASH] + Seq::new(RAND_CHARS_LEN as nat, |_i: int| suffix_char(n))
}

/// The counter after one issuance.
pub open spec fn next_count(n: u8) -> u8 {
    ((n as int + 1) % 256) as u8
}

pub open spec fn is_upper_or_digit(c: u8) -> bool {
    (65 <= c <= 90) || (48 <= c <= 57)
}

pub open spec fn is_lower_or_digit(c: u8) -> bool {
    (97 <= c <= 122) || (48 <= c <= 57)
}

/// An asset-class identifier is valid when it is an upper-case alphanumeric
/// ticker of 3 to 10 characters, a dash, and six lower-case alphanumeric
/// characters.
pub open spec fn valid_token_identifier(id: Seq<u8>) -> bool {
    let n = id.len();
    let t = n - RAND_CHARS_LEN - 1;
    &&& TICKER_MIN_LENGTH + RAND_CHARS_LEN + 1 <= n <= TICKER_MAX_LENGTH + RAND_CHARS_LEN + 1
    &&& forall|i: int| 0 <= i < t ==> is_upper_or_digit(#[trigger] id[i])
    &&& id[t] == DASH
    &&& forall|i: int| t < i < n ==> is_lower_or_digit(#[trigger] id[i])
}

/// Tells whether `id` is a well-formed asset-class identifier.
pub fn is_valid_esdt_identifier(id: &Vec<u8>) -> (r: bool)
    ensures
        r == valid_token_identifier(id@),
{
    let n = id.len();
    if n < TICKER_MIN_LENGTH + RAND_CHARS_LEN + 1 || n > TICKER_MAX_LENGTH + RAND_CHARS_LEN + 1 {
        return false;
    }
    let t = n - RAND_CHARS_LEN - 1;
    let mut i: usize = 0;
    while i < t
        invariant
            n == id@.len(),
            TICKER_MIN_LENGTH + RAND_CHARS_LEN + 1 <= n <= TICKER_MAX_LENGTH + RAND_CHARS_LEN + 1,
            t == n - RAND_CHARS_LEN - 1,
            i <= t,
            forall|j: int| 0 <= j < i ==> is_upper_or_digit(#[trigger] id@[j]),
        decreases t - i,
    {
        let c = id[i];
        if !((65 <= c && c <= 90) || (48 <= c && c <= 57)) {
            return false;
        }
        i = i + 1;
    }
    if id[t] != DASH {
        return false;
    }
    let mut i: usize = t + 1;
    while i < n
        invariant
            n == id@.len(),
            TICKER_MIN_LENGTH + RAND_CHARS_LEN + 1 <= n <= TICKER_MAX_LENGTH + RAND_CHARS_LEN + 1,
            t == n - RAND_CHARS_LEN - 1,
            id@[t as int] == DASH,
            forall|j: int| 0 <= j < t ==> is_upper_or_digit(#[trigger] id@[j]),
            t + 1 <= i <= n,
            forall|j: int| t < j < i ==> is_lower_or_digit(#[trigger] id@[j]),
        decreases n - i,
    {
        let c = id[i];
        if !((97 <= c && c <= 122) || (48 <= c && c <= 57)) {
            return false;
        }
        i = i + 1;
    }
    true
}

/// The identifier issuer. Implementors hold the issuance counter; the
/// issuing operations are provided on top of it.
pub trait PayableFeatures {
    /// The issuance counter as it is stored.
    spec fn issued_count(&self) -> u8;

    /// Reads the issuance counter.
    fn nr_issued_tokens(&self) -> (r: u8)
        ensures
            r == self.issued_count(),
    ;

    /// Stores `n` as the issuance counter.
    fn set_nr_issued_tokens(&mut self, n: u8)
        ensures
            final(self).issued_count() == n,
    ;

    /// Builds `ticker-SSSSSS` from the counter and advances the counter by one,
    /// wrapping. The result is not checked for validity.
    fn create_new_token_id(&mut self, token_ticker: &Vec<u8>) -> (r: Vec<u8>)
        requires
            token_ticker@.len() + RAND_CHARS_LEN + 1 <= usize::MAX,
        ensures
            r@ == token_id_spec(token_ticker@, old(self).issued_count()),
            final(self).issued_count() == next_count(old(self).issued_count()),
    {
        let n = self.nr_issued_tokens();
        let c: u8 = ZERO_ASCII.wrapping_add(n);
        let mut token_id: Vec<u8> = Vec::new();
        let mut i: usize = 0;
        while i < token_ticker.len()
            invariant
                i <= token_ticker@.len(),
                token_id@ == token_ticker@.subrange(0, i as int),
            decreases token_ticker@.len() - i,
        {
            token_id.push(token_ticker[i]);
            i = i + 1;
        }
        token_id.push(DASH);
        let mut k: usize = 0;
        while k < RAND_CHARS_LEN
            invariant
                k <= RAND_CHARS_LEN,
                c == suffix_char(n),
                token_id@ == token_ticker@ + seq![DASH] + Seq::new(k as nat, |_i: int| suffix_char(n)),
            decreases RAND_CHARS_LEN - k,
        {
            token_id.push(c);
            k = k + 1;
            assert(token_id@ =~= token_ticker@ + seq![DASH] + Seq::new(k as nat, |_i: int| suffix_char(n)));
        }
        self.set_nr_issued_tokens(n.wrapping_add(1));
        token_id
    }

    /// Issues a new identifier for `token_ticker`. The counter advances only
    /// when the identifier is valid; otherwise it keeps its value.
    fn issue_fungible(&mut self, token_ticker: &Vec<u8>) -> (r: Result<Vec<u8>, MintError>)
        requires
            token_ticker@.len() + RAND_CHARS_LEN + 1 <= usize::MAX,
        ensures
            ({
                let id = token_id_spec(token_ticker@, old(self).issued_count());
                match r {
                    Ok(v) => valid_token_identifier(id) && v@ == id
                        && final(self).issued_count() == next_count(old(self).issued_count()),
                    Err(e) => !valid_token_identifier(id) && e == MintError::InvalidIdentifier
                        && final(self).issued_count() == old(self).issued_count(),
                }
            }),
    {
        let saved = self.nr_issued_tokens();
        let id = self.create_new_token_id(token_ticker);
        if !is_valid_esdt_identifier(&id) {
            self.set_nr_issued_tokens(saved);
            return Err(MintError::InvalidIdentifier);
        }
        Ok(id)
    }

    /// Issues an identifier for `token_ticker` without checking its validity.
    fn register_and_set_all_roles(&mut self, token_ticker: &Vec<u8>) -> (r: Vec<u8>)
        requires
            token_ticker@.len() + RAND_CHARS_LEN + 1 <= usize::MAX,
        ensures
            r@ == token_id_spec(token_ticker@, old(self).issued_count()),
            final(self).issued_count() == next_count(old(self).issued_count()),
    {
        self.create_new_token_id(token_ticker)
    }
}

/// An issuer that keeps its counter in a field.
pub struct TokenIssuer {
    pub nr_issued_tokens: u8,
}

impl TokenIssuer {
    /// A fresh issuer whose counter is zero.
    pub fn init() -> (r: Self)
        ensures
            r.nr_issued_tokens == 0,
    {
        TokenIssuer { nr_issued_tokens: 0 }
    }

    /// An issuer whose counter already holds `n`.
    pub fn with_issued_count(n: u8) -> (r: Self)
        ensures
            r.nr_issued_tokens == n,
    {
        TokenIssuer { nr_issued_tokens: n }
    }
}

impl PayableFeatures for TokenIssuer {
    open spec fn issued_count(&self) -> u8 {
        self.nr_issued_tokens
    }

    fn nr_issued_tokens(&self) -> (r: u8) {
        self.nr_issued_tokens
    }

    fn set_nr_issued_tokens(&mut self, n: u8) {
        self.nr_issued_tokens = n;
    }
}

} // verus!
