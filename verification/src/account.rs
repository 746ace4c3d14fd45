//! The upstream accounts that requests are dispatched to.

use vstd::prelude::*;

verus! {

/// The kind of upstream that an account belongs to.
#[derive(Clone, Copy, Debug, PartialEq, Eq, Structural)]
pub enum Provider {
    GoogleOauth,
    ZaiApikey,
}

/// What an account authenticates with.
#[derive(Debug)]
pub enum Credentials {
    OAuth { access_token: String, refresh_token: String, expiry_unix: u64 },
    ApiKey(String),
}

/// A fresh pair of OAuth tokens.
#[derive(Debug)]
pub struct OAuthTokens {
    pub access_token: String,
    pub refresh_token: String,
    pub expiry_unix: u64,
}

/// One upstream account.
#[derive(Debug)]
pub struct Account {
    /// Stable identity of the account.
    pub account_id: String,
    pub email: String,
    pub provider: Provider,
    pub credentials: Credentials,
    /// The device profile attached to the account, if any.
    pub device_profile: Option<String>,
    /// Position in the order in which the accounts were created.
    pub created_order: u64,
}

/// Seconds before its expiry from which an access token is refreshed.
pub const REFRESH_SKEW_SECS: u64 = 60;

impl Account {
    /// Whether the account's access token expires within the refresh skew
    /// after `now`. An account with an API key never needs a refresh.
    pub open spec fn needs_refresh_at(self, now: u64) -> bool {
        match self.credentials {
            Credentials::OAuth { expiry_unix, .. } => expiry_unix <= now + REFRESH_SKEW_SECS,
            Credentials::ApiKey(_) => false,
        }
    }

    /// Whether the access token must be refreshed before the account is used
    /// at `now`.
    pub fn needs_refresh(&self, now: u64) -> (r: bool)
        ensures
            r == self.needs_refresh_at(now),
    {
        match &self.credentials {
            Credentials::OAuth { expiry_unix, .. } => match now.checked_add(REFRESH_SKEW_SECS) {
                Some(limit) => *expiry_unix <= limit,
                None => true,
            },
            Credentials::ApiKey(_) => false,
        }
    }

    /// Replaces the tokens of an OAuth account. Returns whether the account
    /// is one; an account with an API key is left alone.
    pub fn set_tokens(&mut self, tokens: OAuthTokens) -> (done: bool)
        ensures
            done == old(self).credentials is OAuth,
            done ==> final(self).credentials == (Credentials::OAuth {
                access_token: tokens.access_token,
                refresh_token: tokens.refresh_token,
                expiry_unix: tokens.expiry_unix,
            }),
            !done ==> final(self).credentials == old(self).credentials,
            final(self).account_id == old(self).account_id,
            final(self).email == old(self).email,
            final(self).provider == old(self).provider,
            final(self).device_profile == old(self).device_profile,
            final(self).created_order == old(self).created_order,
    {
        match &self.credentials {
            Credentials::OAuth { .. } => {
                self.credentials = Credentials::OAuth {
                    access_token: tokens.access_token,
                    refresh_token: tokens.refresh_token,
                    expiry_unix: tokens.expiry_unix,
                };
                true
            },
            Credentials::ApiKey(_) => false,
        }
    }
}

} // verus!
