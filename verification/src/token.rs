use vstd::prelude::*;

verus! {

/// An OAuth credential: access token, refresh token, and the instant the
/// access token expires (milliseconds since the Unix epoch).  Exactly one
/// logical credential exists at a time.
#[derive(Debug, Clone)]
pub struct Authentication {
    pub access_token: String,
    pub refresh_token: String,
    pub expires_at: i64,
}

impl Authentication {
    /// A field-for-field copy of the credential.
    pub fn clone_auth(&self) -> (r: Self)
        ensures
            r == *self,
    {
        Authentication {
            access_token: self.access_token.clone(),
            refresh_token: self.refresh_token.clone(),
            expires_at: self.expires_at,
        }
    }
}

/// The credential state: a credential (possibly expired), or none, with a
/// note of whether the operator has been alerted since it was lost.
#[derive(Debug)]
pub enum TokenStatus {
    Missing { alerted: bool },
    Existing(Authentication),
}

/// What a waiter polling for a bearer token must do next.
#[derive(Debug)]
pub enum TokenPoll {
    /// A valid bearer token: use it.
    Ready(String),
    /// The credential has expired: exchange this refresh token with the
    /// provider, then apply the result.
    RefreshNeeded(String),
    /// The credential is missing and nobody has been told: send the
    /// re-authentication alert, then record it.
    AlertNeeded,
    /// Already alerted: block on the wake signal and re-evaluate.
    Blocked,
}

/// Why a token response yields no credential.
#[derive(Debug, Clone, Copy, PartialEq, Eq, Structural)]
pub enum ExchangeError {
    /// The provider granted no refresh token; it must be asked for offline
    /// access.
    NoRefreshToken,
    /// The provider gave no expiry for the access token.
    NoExpiration,
}

/// `a + b` clamped into the `i64` range.
pub open spec fn spec_add_clamped(a: int, b: int) -> int {
    if a + b > i64::MAX {
        i64::MAX as int
    } else if a + b < i64::MIN {
        i64::MIN as int
    } else {
        a + b
    }
}

/// What a waiter must do in a given credential state at a given instant: a
/// credential valid strictly past `now` is returned, an expired one asks
/// for a refresh, a missing one alerts once and then blocks.
pub open spec fn spec_poll(status: TokenStatus, now: i64) -> TokenPoll {
    match status {
        TokenStatus::Existing(a) => if a.expires_at > now {
            TokenPoll::Ready(a.access_token)
        } else {
            TokenPoll::RefreshNeeded(a.refresh_token)
        },
        TokenStatus::Missing { alerted } => if alerted {
            TokenPoll::Blocked
        } else {
            TokenPoll::AlertNeeded
        },
    }
}

/// The credential manager's state, with the effects its transitions demand
/// of the surroundings made visible: `stored` mirrors what the credential
/// store must hold, `alerts_sent` counts the alert messages handed to the
/// notifier, and `wakes` counts the broadcasts that wake all waiters.
pub struct TokenManager {
    pub status: TokenStatus,
    pub stored: Option<Authentication>,
    pub alerts_sent: Ghost<int>,
    pub wakes: Ghost<int>,
}

impl TokenManager {
    /// Start from what the credential store holds: a stored credential is
    /// used as is; none means missing, with no alert sent yet.
    pub fn init(stored: Option<Authentication>) -> (r: Self)
        ensures
            r.status == (match stored {
                Some(a) => TokenStatus::Existing(a),
                None => TokenStatus::Missing { alerted: false },
            }),
            r.stored == stored,
            r.alerts_sent@ == 0,
            r.wakes@ == 0,
    {
        match stored {
            Some(a) => TokenManager {
                status: TokenStatus::Existing(a.clone_auth()),
                stored: Some(a),
                alerts_sent: Ghost(0),
                wakes: Ghost(0),
            },
            None => TokenManager {
                status: TokenStatus::Missing { alerted: false },
                stored: None,
                alerts_sent: Ghost(0),
                wakes: Ghost(0),
            },
        }
    }

    /// Re-evaluate, as every waiter does each time it wakes.  Reading alone
    /// changes nothing and sends nothing.
    pub fn poll(&self, now: i64) -> (r: TokenPoll)
        ensures
            r == spec_poll(self.status, now),
    {
        match &self.status {
            TokenStatus::Existing(a) => {
                if a.expires_at > now {
                    TokenPoll::Ready(a.access_token.clone())
                } else {
                    TokenPoll::RefreshNeeded(a.refresh_token.clone())
                }
            },
            TokenStatus::Missing { alerted } => {
                if *alerted {
                    TokenPoll::Blocked
                } else {
                    TokenPoll::AlertNeeded
                }
            },
        }
    }

    /// Record that the one alert for this loss of credential has been sent.
    /// Exactly one alert is counted, the state moves to
    /// `Missing { alerted: true }`, and the store is untouched — there is
    /// no credential to persist.
    pub fn record_alert(&mut self)
        requires
            old(self).status == (TokenStatus::Missing { alerted: false }),
        ensures
            final(self).status == (TokenStatus::Missing { alerted: true }),
            final(self).stored == old(self).stored,
            final(self).alerts_sent@ == old(self).alerts_sent@ + 1,
            final(self).wakes@ == old(self).wakes@,
    {
        self.status = TokenStatus::Missing { alerted: true };
        proof {
            self.alerts_sent@ = self.alerts_sent@ + 1;
        }
    }

    /// Apply the provider's answer to a refresh attempt.  Success installs
    /// and persists the new credential and hands back its access token;
    /// failure demotes to missing, persists the demotion, and counts the
    /// one alert sent for it — the caller then falls through to waiting.
    pub fn apply_refresh(&mut self, refreshed: Option<Authentication>) -> (r: Option<String>)
        requires
            old(self).status is Existing,
        ensures
            match refreshed {
                Some(a) => {
                    &&& final(self).status == TokenStatus::Existing(a)
                    &&& final(self).stored == Some(a)
                    &&& r == Some(a.access_token)
                    &&& final(self).alerts_sent@ == old(self).alerts_sent@
                },
                None => {
                    &&& final(self).status == (TokenStatus::Missing { alerted: false })
                    &&& final(self).stored is None
                    &&& r is None
                    &&& final(self).alerts_sent@ == old(self).alerts_sent@ + 1
                },
            },
            final(self).wakes@ == old(self).wakes@,
    {
        match refreshed {
            Some(a) => {
                let token = a.access_token.clone();
                self.status = TokenStatus::Existing(a.clone_auth());
                self.stored = Some(a);
                Some(token)
            },
            None => {
                self.status = TokenStatus::Missing { alerted: false };
                self.stored = None;
                proof {
                    self.alerts_sent@ = self.alerts_sent@ + 1;
                }
                None
            },
        }
    }

    /// Install a credential obtained from a fresh authorization-code
    /// exchange: persist it and wake every waiter.
    pub fn load_new_token(&mut self, auth: Authentication)
        ensures
            final(self).status == TokenStatus::Existing(auth),
            final(self).stored == Some(auth),
            final(self).alerts_sent@ == old(self).alerts_sent@,
            final(self).wakes@ == old(self).wakes@ + 1,
    {
        self.status = TokenStatus::Existing(auth.clone_auth());
        self.stored = Some(auth);
        proof {
            self.wakes@ = self.wakes@ + 1;
        }
    }
}

impl Authentication {
    /// Build a credential from the fields of a provider token response:
    /// fails when no refresh token was granted or no expiry was given, and
    /// otherwise expires `expires_in_millis` from `now` (clamped to the
    /// instant range).
    pub fn from_token_response(
        access_token: String,
        refresh_token: Option<String>,
        expires_in_millis: Option<i64>,
        now: i64,
    ) -> (r: Result<Authentication, ExchangeError>)
        ensures
            match r {
                Ok(a) => {
                    &&& refresh_token is Some
                    &&& expires_in_millis is Some
                    &&& a.access_token == access_token
                    &&& a.refresh_token == refresh_token->0
                    &&& a.expires_at == spec_add_clamped(now as int, expires_in_millis->0 as int)
                },
                Err(e) => {
                    &&& (e == ExchangeError::NoRefreshToken <==> refresh_token is None)
                    &&& (e == ExchangeError::NoExpiration ==> refresh_token is Some
                        && expires_in_millis is None)
                },
            },
    {
        let refresh_token = match refresh_token {
            Some(t) => t,
            None => {
                return Err(ExchangeError::NoRefreshToken);
            },
        };
        let expires_in = match expires_in_millis {
            Some(d) => d,
            None => {
                return Err(ExchangeError::NoExpiration);
            },
        };
        let sum: i128 = now as i128 + expires_in as i128;
        let expires_at: i64 = if sum > i64::MAX as i128 {
            i64::MAX
        } else if sum < i64::MIN as i128 {
            i64::MIN
        } else {
            sum as i64
        };
        Ok(Authentication { access_token, refresh_token, expires_at })
    }
}

/// Once the one alert for a lost credential has been recorded, every
/// further waiter that polls the same state blocks, at any instant, and no
/// transition runs: no second alert can be sent before the credential is
/// resolved.
pub proof fn lemma_second_waiter_blocks(status: TokenStatus, now: i64)
    requires
        status == (TokenStatus::Missing { alerted: true }),
    ensures
        spec_poll(status, now) == TokenPoll::Blocked,
{
}

} // verus!
