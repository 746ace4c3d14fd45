//! The token manager: which account serves a request.
//!
//! A selection goes through these steps. Where the API-key provider is
//! enabled in `Primary` mode, it serves every request. Where a preferred
//! account is set, only that account is used. Else a session with a live
//! binding stays with its account. Else the eligible accounts of the
//! required provider are candidates, one is picked by weighted round robin,
//! and the session is bound to it. Without a candidate the API-key provider
//! steps in if it is enabled in `Fallback` mode; else the selection fails.

use crate::account::{Account, OAuthTokens, Provider};
use crate::health::{AccountHealth, FailureKind, RateLimitTracker};
use crate::rotation::{lemma_winner, pick, winner, Candidate};
use crate::sticky::{shard_of, shard_capacity, BindingModel, StickySessionConfig, StickySessions};
use crate::table::{distinct, index_of};
use crate::text::{contains_text, same_text, texts};
use crate::zai::ZaiDispatchMode;
use vstd::prelude::*;

verus! {

/// What a selection is asked for.
#[derive(Debug)]
pub struct SelectRequest {
    /// The provider that must serve the request.
    pub provider: Provider,
    /// The session id that the request carries, if any.
    pub session_id: Option<String>,
    /// Accounts that must not be selected: those already tried for this
    /// request.
    pub excluded: Vec<String>,
}

/// The value of a [`SelectRequest`].
pub struct RequestModel {
    pub provider: Provider,
    pub session: Option<Seq<char>>,
    pub excluded: Seq<Seq<char>>,
}

impl View for SelectRequest {
    type V = RequestModel;

    open spec fn view(&self) -> RequestModel {
        RequestModel {
            provider: self.provider,
            session: match self.session_id {
                Some(s) => Some(s@),
                None => None,
            },
            excluded: texts(self.excluded@),
        }
    }
}

/// By which step an account was selected.
#[derive(Clone, Copy, Debug, PartialEq, Eq, Structural)]
pub enum Via {
    /// It is the preferred account.
    Preferred,
    /// The request's session is bound to it.
    Sticky,
    /// It was picked among the candidates.
    Rotation,
}

/// What serves a request.
#[derive(Debug, PartialEq, Eq)]
pub enum Selection {
    /// An account of the pool.
    Account {
        account_id: String,
        /// Whether its access token must be refreshed before use.
        needs_refresh: bool,
        via: Via,
    },
    /// The API-key provider, outside the pool.
    Zai,
}

/// Why a selection failed.
#[derive(Clone, Copy, Debug, PartialEq, Eq, Structural)]
pub enum SelectError {
    /// No account can serve the request.
    NoEligibleAccount,
}

/// What a selection decides: an account of the pool (by its index) and the
/// step that chose it, the API-key provider, or nothing.
pub enum Decision {
    Account(Via, int),
    Zai,
    Exhausted,
}

/// The accounts of `accounts` without those whose id an earlier one has.
pub open spec fn first_of_each(accounts: Seq<Account>) -> Seq<Account>
    decreases accounts.len(),
{
    if accounts.len() == 0 {
        accounts
    } else {
        let head = first_of_each(accounts.drop_last());
        if ids_of(head).contains(accounts.last().account_id@) {
            head
        } else {
            head.push(accounts.last())
        }
    }
}

/// The ids of `accounts`, in order.
pub open spec fn ids_of(accounts: Seq<Account>) -> Seq<Seq<char>> {
    Seq::new(accounts.len(), |i: int| accounts[i].account_id@)
}

/// The token manager.
pub struct TokenManager {
    accounts: Vec<Account>,
    tracker: RateLimitTracker,
    sessions: StickySessions,
    sticky: StickySessionConfig,
    preferred: Option<String>,
    zai_enabled: bool,
    zai_mode: ZaiDispatchMode,
    cursor_google: u64,
    cursor_zai: u64,
}

impl TokenManager {
    /// The accounts, in the order in which they were loaded.
    pub closed spec fn pool(&self) -> Seq<Account> {
        self.accounts@
    }

    /// The health of the accounts.
    pub closed spec fn tracker(&self) -> RateLimitTracker {
        self.tracker
    }

    /// The session bindings.
    pub closed spec fn sessions(&self) -> StickySessions {
        self.sessions
    }

    /// The settings of sticky scheduling.
    pub closed spec fn sticky(&self) -> StickySessionConfig {
        self.sticky
    }

    /// The preferred account, if fixed-account mode is on.
    pub closed spec fn preferred(&self) -> Option<Seq<char>> {
        match self.preferred {
            Some(id) => Some(id@),
            None => None,
        }
    }

    /// Whether the API-key provider serves every request.
    pub closed spec fn zai_first(&self) -> bool {
        self.zai_enabled && self.zai_mode == ZaiDispatchMode::Primary
    }

    /// Whether the API-key provider serves when no account can.
    pub closed spec fn zai_last(&self) -> bool {
        self.zai_enabled && self.zai_mode == ZaiDispatchMode::Fallback
    }

    /// The round-robin counter of `provider`.
    pub closed spec fn cursor(&self, provider: Provider) -> u64 {
        match provider {
            Provider::GoogleOauth => self.cursor_google,
            Provider::ZaiApikey => self.cursor_zai,
        }
    }

    /// The parts are sound, no two accounts share an id, and the bindings
    /// have the capacity that the settings give them.
    pub closed spec fn wf(&self) -> bool {
        &&& self.tracker.wf()
        &&& self.sessions.wf()
        &&& distinct(self.ids())
        &&& self.sessions.max_bindings() == self.sticky.max_bindings
    }

    /// The ids of the accounts, in order.
    pub open spec fn ids(&self) -> Seq<Seq<char>> {
        ids_of(self.pool())
    }

    /// Seconds without a hit after which a binding expires.
    pub open spec fn ttl(&self) -> u64 {
        self.sticky().sticky_ttl_secs as u64
    }

    /// Whether the account at index `i` may serve `req` at `now`: it is of
    /// the required provider, not excluded, and eligible.
    pub open spec fn usable(&self, i: int, req: RequestModel, now: u64) -> bool {
        &&& self.pool()[i].provider == req.provider
        &&& !req.excluded.contains(self.ids()[i])
        &&& self.tracker().eligible(self.ids()[i], now)
    }

    /// The account at index `i` as a candidate.
    pub open spec fn candidate_at(&self, i: int) -> Candidate {
        Candidate {
            index: i as usize,
            failures: self.tracker().health(self.ids()[i]).consecutive_failures,
            last_success_at: self.tracker().health(self.ids()[i]).last_success_at,
        }
    }

    /// The candidates among the first `n` accounts, in order.
    pub open spec fn candidates_upto(&self, req: RequestModel, now: u64, n: int) -> Seq<Candidate>
        decreases n,
    {
        if n <= 0 {
            Seq::empty()
        } else {
            let head = self.candidates_upto(req, now, n - 1);
            if self.usable(n - 1, req, now) {
                head.push(self.candidate_at(n - 1))
            } else {
                head
            }
        }
    }

    /// The candidates for `req` at `now`: the usable accounts, in order.
    pub open spec fn candidates(&self, req: RequestModel, now: u64) -> Seq<Candidate> {
        self.candidates_upto(req, now, self.pool().len() as int)
    }

    /// Whether the sticky step applies to `req`.
    pub open spec fn sticks(&self, req: RequestModel) -> bool {
        self.sticky().enabled && req.session is Some
    }

    /// The account that the session of `req` stays with: the one of its live
    /// binding, if it is in the pool, of the required provider, not excluded,
    /// and either eligible or kept regardless by the settings.
    pub open spec fn sticky_target(&self, req: RequestModel, now: u64) -> Option<int> {
        if self.sticks(req) {
            match self.sessions().live(req.session->0, now, self.ttl()) {
                Some(b) => {
                    let i = index_of(self.ids(), b.account);
                    if self.ids().contains(b.account) && self.pool()[i].provider == req.provider
                        && !req.excluded.contains(self.ids()[i]) && (self.tracker().eligible(
                        self.ids()[i],
                        now,
                    ) || !self.sticky().fallback_on_unhealthy) {
                        Some(i)
                    } else {
                        None
                    }
                },
                None => None,
            }
        } else {
            None
        }
    }

    /// What is left when no account can serve.
    pub open spec fn last_resort(&self) -> Decision {
        if self.zai_last() {
            Decision::Zai
        } else {
            Decision::Exhausted
        }
    }

    /// What a selection for `req` at `now` decides.
    pub open spec fn decide(&self, req: RequestModel, now: u64) -> Decision {
        if self.zai_first() {
            Decision::Zai
        } else {
            match self.preferred() {
                Some(p) => {
                    let i = index_of(self.ids(), p);
                    if self.ids().contains(p) && self.usable(i, req, now) {
                        Decision::Account(Via::Preferred, i)
                    } else {
                        self.last_resort()
                    }
                },
                None => match self.sticky_target(req, now) {
                    Some(i) => Decision::Account(Via::Sticky, i),
                    None => if self.candidates(req, now).len() > 0 {
                        Decision::Account(
                            Via::Rotation,
                            winner(self.candidates(req, now), self.cursor(req.provider)).index
                                as int,
                        )
                    } else {
                        self.last_resort()
                    },
                },
            }
        }
    }

    /// Whether `r` is the answer that goes with the decision.
    pub open spec fn answers(
        &self,
        req: RequestModel,
        now: u64,
        r: Result<Selection, SelectError>,
    ) -> bool {
        match self.decide(req, now) {
            Decision::Account(via, i) => {
                &&& r matches Ok(Selection::Account { account_id, needs_refresh, via: v })
                &&& 0 <= i < self.pool().len()
                &&& account_id@ == self.ids()[i]
                &&& needs_refresh == self.pool()[i].needs_refresh_at(now)
                &&& v == via
            },
            Decision::Zai => r == Ok::<Selection, SelectError>(Selection::Zai),
            Decision::Exhausted => r == Err::<Selection, SelectError>(
                SelectError::NoEligibleAccount,
            ),
        }
    }

    /// The same accounts, settings, preferred account and API-key mode.
    pub open spec fn same_setup(&self, next: &TokenManager) -> bool {
        &&& next.pool() == self.pool()
        &&& next.sticky() == self.sticky()
        &&& next.preferred() == self.preferred()
        &&& next.zai_first() == self.zai_first()
        &&& next.zai_last() == self.zai_last()
    }

    /// The same round-robin counters.
    pub open spec fn same_cursors(&self, next: &TokenManager) -> bool {
        forall|p: Provider| #[trigger] next.cursor(p) == self.cursor(p)
    }

    /// Whether `next` is the state that a selection for `req` at `now`
    /// leaves.
    ///
    /// Accounts, settings and health stay. A sticky hit touches the binding.
    /// A pick advances the provider's counter by one and binds the session.
    /// Where the sticky step applied and neither it nor a pick gave an
    /// account, the session's binding is removed.
    pub open spec fn stepped(&self, req: RequestModel, now: u64, next: &TokenManager) -> bool {
        &&& self.same_setup(next)
        &&& next.tracker() == self.tracker()
        &&& match self.decide(req, now) {
            Decision::Account(Via::Preferred, _) => {
                &&& self.same_cursors(next)
                &&& next.sessions() == self.sessions()
            },
            Decision::Account(Via::Sticky, _) => {
                &&& self.same_cursors(next)
                &&& self.sessions().touched(req.session->0, now, &next.sessions())
            },
            Decision::Account(Via::Rotation, i) => {
                &&& next.cursor(req.provider) == self.cursor(req.provider).wrapping_add(1)
                &&& forall|p: Provider|
                    p != req.provider ==> #[trigger] next.cursor(p) == self.cursor(p)
                &&& if self.sticks(req) {
                    self.sessions().bound_to(req.session->0, self.ids()[i], now, &next.sessions())
                } else {
                    next.sessions() == self.sessions()
                }
            },
            _ => {
                &&& self.same_cursors(next)
                &&& if !self.zai_first() && self.preferred() is None && self.sticks(req) {
                    self.sessions().unbound(req.session->0, &next.sessions())
                } else {
                    next.sessions() == self.sessions()
                }
            },
        }
    }

    /// Every candidate is a usable account of the pool.
    pub proof fn lemma_candidates(&self, req: RequestModel, now: u64, n: int)
        requires
            0 <= n <= self.pool().len(),
            self.pool().len() <= usize::MAX,
        ensures
            forall|k: int|
                0 <= k < self.candidates_upto(req, now, n).len() ==> {
                    let c = #[trigger] self.candidates_upto(req, now, n)[k];
                    &&& 0 <= c.index < n
                    &&& self.usable(c.index as int, req, now)
                    &&& c == self.candidate_at(c.index as int)
                },
        decreases n,
    {
        if n > 0 {
            self.lemma_candidates(req, now, n - 1);
        }
    }

    /// A manager without accounts.
    pub fn new(max_failures: u32, cooldown_secs: u64, sticky: StickySessionConfig) -> (m: TokenManager)
        ensures
            m.wf(),
            m.pool() == Seq::<Account>::empty(),
            m.sticky() == sticky,
            m.preferred() is None,
            !m.zai_first(),
            !m.zai_last(),
            m.tracker()@ == Map::<Seq<char>, AccountHealth>::empty(),
            m.tracker().max_failures() == max_failures,
            m.tracker().cooldown_secs() == cooldown_secs,
            forall|s: Seq<char>| m.sessions().binding(s) is None,
            forall|p: Provider| #[trigger] m.cursor(p) == 0,
    {
        let sessions = StickySessions::new(sticky.max_bindings);
        let m = TokenManager {
            accounts: Vec::new(),
            tracker: RateLimitTracker::new(max_failures, cooldown_secs),
            sessions,
            sticky,
            preferred: None,
            zai_enabled: false,
            zai_mode: ZaiDispatchMode::Off,
            cursor_google: 0,
            cursor_zai: 0,
        };
        assert(m.ids() =~= Seq::<Seq<char>>::empty());
        m
    }

    /// The number of accounts.
    pub fn len(&self) -> (n: usize)
        ensures
            n == self.pool().len(),
    {
        self.accounts.len()
    }

    /// The index of the account `id`.
    pub fn find_account(&self, id: &str) -> (r: Option<usize>)
        requires
            self.wf(),
        ensures
            match r {
                Some(i) => i < self.pool().len() && self.ids()[i as int] == id@
                    && self.ids().contains(id@) && index_of(self.ids(), id@) == i,
                None => !self.ids().contains(id@),
            },
    {
        let mut i: usize = 0;
        while i < self.accounts.len()
            invariant
                i <= self.accounts.len(),
                self.wf(),
                forall|k: int| 0 <= k < i ==> (#[trigger] self.ids()[k]) != id@,
            decreases self.accounts.len() - i,
        {
            if same_text(self.accounts[i].account_id.as_str(), id) {
                proof {
                    assert(self.ids()[i as int] == id@);
                    crate::table::lemma_index_of(self.ids(), i as int);
                }
                return Some(i);
            }
            i += 1;
        }
        None
    }

    /// The account `id`.
    pub fn account(&self, id: &str) -> (r: Option<&Account>)
        requires
            self.wf(),
        ensures
            match r {
                Some(a) => self.ids().contains(id@) && *a == self.pool()[index_of(self.ids(), id@)],
                None => !self.ids().contains(id@),
            },
    {
        match self.find_account(id) {
            Some(i) => Some(&self.accounts[i]),
            None => None,
        }
    }

    fn is_usable(&self, i: usize, req: &SelectRequest, now: u64) -> (r: bool)
        requires
            self.wf(),
            i < self.pool().len(),
        ensures
            r == self.usable(i as int, req@, now),
    {
        let a = &self.accounts[i];
        let same_provider = match (a.provider, req.provider) {
            (Provider::GoogleOauth, Provider::GoogleOauth) => true,
            (Provider::ZaiApikey, Provider::ZaiApikey) => true,
            _ => false,
        };
        same_provider && !contains_text(&req.excluded, a.account_id.as_str())
            && self.tracker.is_eligible(a.account_id.as_str(), now)
    }

    fn candidate(&self, i: usize) -> (c: Candidate)
        requires
            self.wf(),
            i < self.pool().len(),
        ensures
            c == self.candidate_at(i as int),
    {
        let h = self.tracker.health_of(self.accounts[i].account_id.as_str());
        Candidate { index: i, failures: h.consecutive_failures, last_success_at: h.last_success_at }
    }

    fn collect(&self, req: &SelectRequest, now: u64) -> (c: Vec<Candidate>)
        requires
            self.wf(),
        ensures
            c@ == self.candidates(req@, now),
    {
        let mut out: Vec<Candidate> = Vec::new();
        let mut i: usize = 0;
        while i < self.accounts.len()
            invariant
                i <= self.accounts.len(),
                self.wf(),
                out@ == self.candidates_upto(req@, now, i as int),
            decreases self.accounts.len() - i,
        {
            if self.is_usable(i, req, now) {
                out.push(self.candidate(i));
            }
            i += 1;
        }
        out
    }

    fn chosen(&self, i: usize, via: Via, now: u64) -> (s: Selection)
        requires
            i < self.pool().len(),
        ensures
            s matches Selection::Account { account_id, needs_refresh, via: v } && account_id@
                == self.ids()[i as int] && needs_refresh == self.pool()[i as int].needs_refresh_at(
                now,
            ) && v == via,
    {
        Selection::Account {
            account_id: self.accounts[i].account_id.clone(),
            needs_refresh: self.accounts[i].needs_refresh(now),
            via,
        }
    }

    fn fall_back(&self) -> (r: Result<Selection, SelectError>)
        ensures
            match self.last_resort() {
                Decision::Zai => r == Ok::<Selection, SelectError>(Selection::Zai),
                _ => r == Err::<Selection, SelectError>(SelectError::NoEligibleAccount),
            },
    {
        if self.zai_enabled && matches!(self.zai_mode, ZaiDispatchMode::Fallback) {
            Ok(Selection::Zai)
        } else {
            Err(SelectError::NoEligibleAccount)
        }
    }

    fn sticky_hit(&self, req: &SelectRequest, now: u64) -> (r: Option<usize>)
        requires
            self.wf(),
        ensures
            match r {
                Some(i) => self.sticky_target(req@, now) == Some(i as int) && i
                    < self.pool().len(),
                None => self.sticky_target(req@, now) is None,
            },
    {
        if !self.sticky.enabled {
            return None;
        }
        match &req.session_id {
            Some(session) => {
                match self.sessions.lookup(session.as_str(), now, self.sticky.sticky_ttl_secs as u64) {
                    Some(b) => match self.find_account(b.account_id.as_str()) {
                        Some(i) => {
                            let a = &self.accounts[i];
                            let same_provider = match (a.provider, req.provider) {
                                (Provider::GoogleOauth, Provider::GoogleOauth) => true,
                                (Provider::ZaiApikey, Provider::ZaiApikey) => true,
                                _ => false,
                            };
                            if same_provider && !contains_text(&req.excluded, a.account_id.as_str())
                                && (self.tracker.is_eligible(a.account_id.as_str(), now)
                                || !self.sticky.fallback_on_unhealthy) {
                                Some(i)
                            } else {
                                None
                            }
                        },
                        None => None,
                    },
                    None => None,
                }
            },
            None => None,
        }
    }

    /// Selects what serves `req` at `now`.
    pub fn select(&mut self, req: &SelectRequest, now: u64) -> (r: Result<Selection, SelectError>)
        requires
            old(self).wf(),
        ensures
            final(self).wf(),
            old(self).answers(req@, now, r),
            old(self).stepped(req@, now, final(self)),
    {
        if self.zai_enabled && matches!(self.zai_mode, ZaiDispatchMode::Primary) {
            return Ok(Selection::Zai);
        }
        if let Some(p) = &self.preferred {
            return match self.find_account(p.as_str()) {
                Some(i) => if self.is_usable(i, req, now) {
                    Ok(self.chosen(i, Via::Preferred, now))
                } else {
                    self.fall_back()
                },
                None => self.fall_back(),
            };
        }
        if let Some(i) = self.sticky_hit(req, now) {
            if let Some(session) = &req.session_id {
                self.sessions.touch(session.as_str(), now);
            }
            return Ok(self.chosen(i, Via::Sticky, now));
        }
        let candidates = self.collect(req, now);
        if candidates.len() == 0 {
            if self.sticky.enabled {
                if let Some(session) = &req.session_id {
                    self.sessions.unbind(session.as_str());
                }
            }
            return self.fall_back();
        }
        let tick = match req.provider {
            Provider::GoogleOauth => self.cursor_google,
            Provider::ZaiApikey => self.cursor_zai,
        };
        let picked = pick(&candidates, tick);
        let n = self.accounts.len();
        proof {
            self.lemma_candidates(req@, now, n as int);
        }
        match req.provider {
            Provider::GoogleOauth => {
                self.cursor_google = self.cursor_google.wrapping_add(1);
            },
            Provider::ZaiApikey => {
                self.cursor_zai = self.cursor_zai.wrapping_add(1);
            },
        }
        if self.sticky.enabled {
            if let Some(session) = &req.session_id {
                self.sessions.bind(
                    session.as_str(),
                    self.accounts[picked.index].account_id.as_str(),
                    now,
                );
            }
        }
        Ok(self.chosen(picked.index, Via::Rotation, now))
    }

    /// Replaces the accounts by `accounts`, without those whose id an earlier
    /// one has. Health and bindings stay; they go by account id. Returns the
    /// number of accounts kept.
    pub fn load_accounts(&mut self, accounts: Vec<Account>) -> (count: usize)
        requires
            old(self).wf(),
        ensures
            final(self).wf(),
            final(self).pool() == first_of_each(accounts@),
            count == final(self).pool().len(),
            final(self).tracker() == old(self).tracker(),
            final(self).sessions() == old(self).sessions(),
            final(self).sticky() == old(self).sticky(),
            final(self).preferred() == old(self).preferred(),
            final(self).zai_first() == old(self).zai_first(),
            final(self).zai_last() == old(self).zai_last(),
            old(self).same_cursors(final(self)),
    {
        let mut kept: Vec<Account> = Vec::new();
        let mut rest = accounts;
        let ghost all = rest@;
        let mut done: Ghost<int> = Ghost(0);
        proof {
            assert(all.take(0) =~= Seq::<Account>::empty());
            assert(all.skip(0) =~= all);
        }
        while rest.len() > 0
            invariant
                0 <= done@ <= all.len(),
                rest@ == all.skip(done@),
                kept@ == first_of_each(all.take(done@)),
                distinct(ids_of(kept@)),
            decreases rest.len(),
        {
            let account = rest.remove(0);
            proof {
                let next = all.take(done@ + 1);
                assert(account == all[done@]);
                assert(next.drop_last() =~= all.take(done@));
                assert(next.last() == all[done@]);
                assert(rest@ =~= all.skip(done@ + 1));
            }
            let ghost before = kept@;
            if !has_id(&kept, account.account_id.as_str()) {
                kept.push(account);
                proof {
                    let ids0 = ids_of(before);
                    let ids1 = ids_of(kept@);
                    assert forall|a: int, b: int| 0 <= a < b < ids1.len() implies #[trigger] ids1[a]
                        != #[trigger] ids1[b] by {
                        if b == before.len() {
                            assert(ids0[a] == ids1[a]);
                            assert(ids0.contains(ids0[a]));
                        } else {
                            assert(ids0[a] == ids1[a] && ids0[b] == ids1[b]);
                        }
                    }
                }
            }
            proof {
                done@ = done@ + 1;
            }
        }
        proof {
            assert(all.take(all.len() as int) =~= all);
        }
        self.accounts = kept;
        self.accounts.len()
    }

    /// Replaces the tokens of the OAuth account `id`. Returns whether there
    /// is such an account.
    pub fn update_tokens(&mut self, id: &str, tokens: OAuthTokens) -> (done: bool)
        requires
            old(self).wf(),
        ensures
            final(self).wf(),
            final(self).ids() == old(self).ids(),
            done == (old(self).ids().contains(id@) && old(self).pool()[index_of(
                old(self).ids(),
                id@,
            )].credentials is OAuth),
            final(self).pool().len() == old(self).pool().len(),
            forall|k: int|
                0 <= k < old(self).pool().len() ==> #[trigger] final(self).pool()[k] == if done && k
                    == index_of(old(self).ids(), id@) {
                    Account {
                        credentials: crate::account::Credentials::OAuth {
                            access_token: tokens.access_token,
                            refresh_token: tokens.refresh_token,
                            expiry_unix: tokens.expiry_unix,
                        },
                        ..old(self).pool()[k]
                    }
                } else {
                    old(self).pool()[k]
                },
            final(self).tracker() == old(self).tracker(),
            final(self).sessions() == old(self).sessions(),
            final(self).sticky() == old(self).sticky(),
            final(self).preferred() == old(self).preferred(),
            final(self).zai_first() == old(self).zai_first(),
            final(self).zai_last() == old(self).zai_last(),
            old(self).same_cursors(final(self)),
    {
        match self.find_account(id) {
            Some(i) => {
                let ghost ids0 = self.ids();
                let done = self.accounts[i].set_tokens(tokens);
                assert(self.ids() =~= ids0);
                done
            },
            None => false,
        }
    }

    /// Sets the preferred account; `None` ends fixed-account mode.
    pub fn set_preferred_account(&mut self, id: Option<String>)
        requires
            old(self).wf(),
        ensures
            final(self).wf(),
            final(self).preferred() == match id {
                Some(p) => Some(p@),
                None => None,
            },
            final(self).pool() == old(self).pool(),
            final(self).tracker() == old(self).tracker(),
            final(self).sessions() == old(self).sessions(),
            final(self).sticky() == old(self).sticky(),
            final(self).zai_first() == old(self).zai_first(),
            final(self).zai_last() == old(self).zai_last(),
            old(self).same_cursors(final(self)),
    {
        self.preferred = id;
    }

    /// The preferred account.
    pub fn get_preferred_account(&self) -> (id: Option<String>)
        ensures
            self.preferred() == match id {
                Some(p) => Some(p@),
                None => None,
            },
    {
        match &self.preferred {
            Some(p) => Some(p.clone()),
            None => None,
        }
    }

    /// Replaces the settings of sticky scheduling. The bindings stay. Only
    /// where the new settings leave a shard less room than it has bindings,
    /// those hit least recently go until the rest fits.
    pub fn update_sticky_config(&mut self, config: StickySessionConfig)
        requires
            old(self).wf(),
        ensures
            final(self).wf(),
            final(self).sticky() == config,
            old(self).sessions().resized(config.max_bindings, &final(self).sessions()),
            config.max_bindings == old(self).sticky().max_bindings ==> final(self).sessions()
                == old(self).sessions(),
            config.max_bindings >= old(self).sticky().max_bindings ==> (forall|s: Seq<char>|
                #![trigger final(self).sessions().binding(s)]
                final(self).sessions().binding(s) == old(self).sessions().binding(s)),
            final(self).pool() == old(self).pool(),
            final(self).tracker() == old(self).tracker(),
            final(self).preferred() == old(self).preferred(),
            final(self).zai_first() == old(self).zai_first(),
            final(self).zai_last() == old(self).zai_last(),
            old(self).same_cursors(final(self)),
    {
        if config.max_bindings != self.sticky.max_bindings {
            self.sessions.resize(config.max_bindings);
        } else {
            proof {
                self.sessions.lemma_resized_same();
            }
        }
        proof {
            if config.max_bindings >= old(self).sticky.max_bindings {
                assert forall|s: Seq<char>|
                    #![trigger self.sessions.binding(s)]
                    self.sessions.binding(s) == old(self).sessions.binding(s) by {
                    old(self).sessions.lemma_resized_roomy(config.max_bindings, &self.sessions, s);
                }
            }
        }
        self.sticky = config;
    }

    /// The settings of sticky scheduling.
    pub fn get_sticky_config(&self) -> (config: StickySessionConfig)
        ensures
            config == self.sticky(),
    {
        self.sticky.duplicate()
    }

    /// Removes every session binding.
    pub fn clear_all_sessions(&mut self)
        requires
            old(self).wf(),
        ensures
            final(self).wf(),
            forall|s: Seq<char>| final(self).sessions().binding(s) is None,
            old(self).same_setup(final(self)),
            final(self).tracker() == old(self).tracker(),
            old(self).same_cursors(final(self)),
    {
        self.sessions.clear_all();
    }

    /// Says how the API-key provider takes part in dispatch.
    pub fn set_zai(&mut self, enabled: bool, mode: ZaiDispatchMode)
        requires
            old(self).wf(),
        ensures
            final(self).wf(),
            final(self).zai_first() == (enabled && mode == ZaiDispatchMode::Primary),
            final(self).zai_last() == (enabled && mode == ZaiDispatchMode::Fallback),
            final(self).pool() == old(self).pool(),
            final(self).tracker() == old(self).tracker(),
            final(self).sessions() == old(self).sessions(),
            final(self).sticky() == old(self).sticky(),
            final(self).preferred() == old(self).preferred(),
            old(self).same_cursors(final(self)),
    {
        self.zai_enabled = enabled;
        self.zai_mode = mode;
    }

    /// Whether the account `id` is eligible at `now`.
    pub fn is_eligible(&self, id: &str, now: u64) -> (r: bool)
        requires
            self.wf(),
        ensures
            r == self.tracker().eligible(id@, now),
    {
        self.tracker.is_eligible(id, now)
    }

    /// The health record of the account `id`.
    pub fn health_of(&self, id: &str) -> (h: AccountHealth)
        requires
            self.wf(),
        ensures
            h == self.tracker().health(id@),
    {
        self.tracker.health_of(id)
    }

    /// Opens a cooldown window for `id`: see
    /// [`RateLimitTracker::mark_rate_limited`].
    pub fn mark_rate_limited(&mut self, id: &str, now: u64, retry_after: u64)
        requires
            old(self).wf(),
        ensures
            final(self).wf(),
            final(self).tracker().same_limits(&old(self).tracker()),
            final(self).tracker()@ == old(self).tracker()@.insert(
                id@,
                old(self).tracker().health(id@).after_rate_limit(now, retry_after),
            ),
            old(self).same_setup(final(self)),
            final(self).sessions() == old(self).sessions(),
            old(self).same_cursors(final(self)),
    {
        self.tracker.mark_rate_limited(id, now, retry_after);
    }

    /// Records a failure for `id`: see [`RateLimitTracker::mark_failure`].
    pub fn mark_failure(&mut self, id: &str, kind: FailureKind, now: u64)
        requires
            old(self).wf(),
        ensures
            final(self).wf(),
            final(self).tracker().same_limits(&old(self).tracker()),
            final(self).tracker()@ == old(self).tracker()@.insert(
                id@,
                old(self).tracker().health(id@).after_failure(kind, now),
            ),
            old(self).same_setup(final(self)),
            final(self).sessions() == old(self).sessions(),
            old(self).same_cursors(final(self)),
    {
        self.tracker.mark_failure(id, kind, now);
    }

    /// Records a success for `id`: see [`RateLimitTracker::mark_success`].
    pub fn mark_success(&mut self, id: &str, now: u64)
        requires
            old(self).wf(),
        ensures
            final(self).wf(),
            final(self).tracker().same_limits(&old(self).tracker()),
            final(self).tracker()@ == old(self).tracker()@.insert(
                id@,
                old(self).tracker().health(id@).after_success(now),
            ),
            old(self).same_setup(final(self)),
            final(self).sessions() == old(self).sessions(),
            old(self).same_cursors(final(self)),
    {
        self.tracker.mark_success(id, now);
    }

    /// The periodic clean-up: sweeps the health records and removes the
    /// bindings that have expired. Returns how many of each went.
    pub fn sweep(&mut self, now: u64) -> (gone: (usize, usize))
        requires
            old(self).wf(),
        ensures
            final(self).wf(),
            final(self).tracker().same_limits(&old(self).tracker()),
            forall|id: Seq<char>|
                #![trigger final(self).tracker().health(id)]
                final(self).tracker().health(id) == old(self).tracker().health(id).swept(
                    now,
                    old(self).tracker().max_failures(),
                    old(self).tracker().cooldown_secs(),
                ),
            forall|s: Seq<char>|
                #![trigger final(self).sessions().binding(s)]
                final(self).sessions().binding(s) == old(self).sessions().live(
                    s,
                    now,
                    old(self).ttl(),
                ),
            old(self).same_setup(final(self)),
            old(self).same_cursors(final(self)),
    {
        let forgotten = self.tracker.sweep(now);
        let evicted = self.sessions.evict_expired(now, self.sticky.sticky_ttl_secs as u64);
        (forgotten, evicted)
    }

    /// An account that a selection returns can serve the request: it is in
    /// the pool, of the required provider, not excluded, and eligible at the
    /// moment of selection. The one exception is a session that the
    /// settings keep with its account regardless of the account's health.
    pub proof fn lemma_selected_is_eligible(&self, req: RequestModel, now: u64)
        requires
            self.wf(),
            self.decide(req, now) is Account,
            self.decide(req, now)->Account_0 == Via::Sticky ==> self.sticky().fallback_on_unhealthy,
        ensures
            0 <= self.decide(req, now)->Account_1 < self.pool().len(),
            self.usable(self.decide(req, now)->Account_1, req, now),
            self.tracker().eligible(self.ids()[self.decide(req, now)->Account_1], now),
    {
        let i = self.decide(req, now)->Account_1;
        assert(self.accounts@.len() == self.accounts.len());
        match self.decide(req, now)->Account_0 {
            Via::Preferred => {
                let p = self.preferred()->0;
                assert(0 <= i < self.ids().len() && self.ids()[i] == p);
            },
            Via::Sticky => {
                let b = self.sessions().live(req.session->0, now, self.ttl())->0;
                assert(0 <= i < self.ids().len() && self.ids()[i] == b.account);
            },
            Via::Rotation => {
                let c = self.candidates(req, now);
                lemma_winner(c, self.cursor(req.provider));
                self.lemma_candidates(req, now, self.pool().len() as int);
                let w = winner(c, self.cursor(req.provider));
                let k = choose|k: int| 0 <= k < c.len() && c[k] == w;
                assert(c[k].index == w.index);
            },
        }
    }

    /// In fixed-account mode the preferred account serves every request that
    /// it can serve, whatever the request's session, its binding or the
    /// round-robin counter.
    pub proof fn lemma_preferred_serves(&self, req: RequestModel, now: u64, i: int)
        requires
            self.wf(),
            !self.zai_first(),
            0 <= i < self.pool().len(),
            self.preferred() == Some(self.ids()[i]),
            self.usable(i, req, now),
        ensures
            self.decide(req, now) == Decision::Account(Via::Preferred, i),
    {
        crate::table::lemma_index_of(self.ids(), i);
    }

    /// In fixed-account mode no other account stands in: where the preferred
    /// account cannot serve, the selection fails, unless the API-key
    /// provider serves as the last resort.
    pub proof fn lemma_preferred_only(&self, req: RequestModel, now: u64)
        requires
            self.wf(),
            !self.zai_first(),
            self.preferred() matches Some(p) && !(self.ids().contains(p) && self.usable(
                index_of(self.ids(), p),
                req,
                now,
            )),
        ensures
            self.decide(req, now) == if self.zai_last() {
                Decision::Zai
            } else {
                Decision::Exhausted
            },
    {
    }

    /// Whether every account can serve `req` at `now` and has no failure on
    /// record.
    pub open spec fn all_healthy(&self, req: RequestModel, now: u64) -> bool {
        forall|i: int|
            0 <= i < self.pool().len() ==> #[trigger] self.usable(i, req, now)
                && self.candidate_at(i).failures == 0
    }

    /// Where every account is healthy, the candidates are the accounts, in
    /// order.
    pub proof fn lemma_healthy_candidates(&self, req: RequestModel, now: u64, n: int)
        requires
            0 <= n <= self.pool().len(),
            self.all_healthy(req, now),
        ensures
            self.candidates_upto(req, now, n) == Seq::new(n as nat, |i: int| self.candidate_at(i)),
        decreases n,
    {
        if n > 0 {
            self.lemma_healthy_candidates(req, now, n - 1);
            assert(self.usable(n - 1, req, now));
            assert(self.candidates_upto(req, now, n) =~= Seq::new(
                n as nat,
                |i: int| self.candidate_at(i),
            ));
        }
    }

    /// Healthy accounts take turns. Where every account is healthy and
    /// neither a preferred account nor a binding decides, the selection goes
    /// to the account at the counter modulo the number of accounts,
    /// whenever any of them last succeeded. The counter advances by one
    /// with each such selection, so as many selections as there are
    /// accounts serve each account once.
    pub proof fn lemma_healthy_pool_rotates(&self, req: RequestModel, now: u64)
        requires
            self.wf(),
            !self.zai_first(),
            self.preferred() is None,
            self.sticky_target(req, now) is None,
            self.pool().len() > 0,
            self.all_healthy(req, now),
        ensures
            self.decide(req, now) == Decision::Account(
                Via::Rotation,
                self.cursor(req.provider) as int % self.pool().len() as int,
            ),
    {
        let n = self.pool().len() as int;
        assert(self.accounts@.len() == self.accounts.len());
        self.lemma_healthy_candidates(req, now, n);
        let c = self.candidates(req, now);
        let tick = self.cursor(req.provider);
        crate::rotation::lemma_owner(c, tick);
        let slot = tick as int % n;
        assert(c[slot] == self.candidate_at(slot));
        assert(self.usable(slot, req, now));
        crate::rotation::lemma_round_robin(c, tick);
    }

    /// A success that is recorded leaves a healthy pool healthy, then and
    /// later.
    pub proof fn lemma_success_keeps_healthy(
        &self,
        next: &TokenManager,
        id: Seq<char>,
        at: u64,
        req: RequestModel,
        now: u64,
        later: u64,
    )
        requires
            self.all_healthy(req, now),
            now <= later,
            next.pool() == self.pool(),
            next.tracker().same_limits(&self.tracker()),
            next.tracker()@ == self.tracker()@.insert(
                id,
                self.tracker().health(id).after_success(at),
            ),
        ensures
            next.all_healthy(req, later),
    {
        assert forall|i: int| 0 <= i < next.pool().len() implies #[trigger] next.usable(
            i,
            req,
            later,
        ) && next.candidate_at(i).failures == 0 by {
            assert(self.usable(i, req, now));
        }
    }

    /// Accounts without failures take turns: where the pick decides and the
    /// candidate whose turn it is has not failed, that candidate is picked,
    /// whenever any of them last succeeded. Its turn is the counter modulo
    /// the number of candidates, so over as many picks as there are
    /// candidates each one is picked once.
    pub proof fn lemma_healthy_accounts_take_turns(&self, req: RequestModel, now: u64)
        requires
            self.wf(),
            self.decide(req, now) matches Decision::Account(Via::Rotation, _),
            crate::rotation::owner(self.candidates(req, now), self.cursor(req.provider)).failures
                == 0,
        ensures
            self.candidates(req, now).len() > 0,
            self.decide(req, now) == Decision::Account(
                Via::Rotation,
                self.candidates(req, now)[self.cursor(req.provider) as int % self.candidates(
                    req,
                    now,
                ).len() as int].index as int,
            ),
    {
        crate::rotation::lemma_round_robin(self.candidates(req, now), self.cursor(req.provider));
    }

    /// A session with a live binding stays with its account for as long as
    /// the account can serve: without a preferred account and with sticky
    /// scheduling on, the selection returns the bound account.
    pub proof fn lemma_session_stays(&self, req: RequestModel, now: u64, i: int)
        requires
            self.wf(),
            !self.zai_first(),
            self.preferred() is None,
            self.sticks(req),
            self.sessions().live(req.session->0, now, self.ttl()) is Some,
            0 <= i < self.pool().len(),
            self.ids()[i] == self.sessions().live(req.session->0, now, self.ttl())->0.account,
            self.usable(i, req, now),
        ensures
            self.decide(req, now) == Decision::Account(Via::Sticky, i),
    {
        crate::table::lemma_index_of(self.ids(), i);
    }

    /// After a pick for a request with a session, the session is bound to
    /// the picked account, as long as its shard has any capacity.
    pub proof fn lemma_pick_binds(&self, req: RequestModel, now: u64, next: &TokenManager)
        requires
            self.wf(),
            self.stepped(req, now, next),
            self.decide(req, now) matches Decision::Account(Via::Rotation, _),
            self.sticks(req),
            shard_capacity(self.sticky().max_bindings, shard_of(req.session->0)) > 0,
        ensures
            next.sessions().binding(req.session->0) == Some(
                BindingModel::fresh(self.ids()[self.decide(req, now)->Account_1], now),
            ),
    {
        let i = self.decide(req, now)->Account_1;
        self.sessions.lemma_bound_binding(req.session->0, self.ids()[i], now, &next.sessions());
    }

    /// A session that was just served stays bound: after a selection gave
    /// the session's request an account, by its binding or by a pick, the
    /// session has a live binding to that account for as long as the
    /// binding's time to live, provided its shard has any capacity.
    pub proof fn lemma_binding_lasts(
        &self,
        req: RequestModel,
        now: u64,
        next: &TokenManager,
        later: u64,
    )
        requires
            self.wf(),
            self.stepped(req, now, next),
            self.sticks(req),
            self.decide(req, now) matches Decision::Account(via, _) && via != Via::Preferred,
            shard_capacity(self.sticky().max_bindings, shard_of(req.session->0)) > 0,
            now <= later <= now + self.ttl(),
        ensures
            next.sessions().live(req.session->0, later, self.ttl()) matches Some(b) && b.account
                == self.ids()[self.decide(req, now)->Account_1] && b.last_hit_at == now,
    {
        let s = req.session->0;
        let i = self.decide(req, now)->Account_1;
        match self.decide(req, now)->Account_0 {
            Via::Sticky => {
                let b = self.sessions().live(s, now, self.ttl())->0;
                assert(self.ids().contains(b.account));
                assert(self.ids()[i] == b.account);
            },
            _ => {
                self.lemma_pick_binds(req, now, next);
            },
        }
    }

    /// An account in its cooldown window is not selected. Once the health of
    /// `id` records a rate limit seen at `since` with `retry_after` seconds
    /// to wait, no selection from `since` until the wait is over returns it,
    /// except for a session that the settings keep with it regardless.
    pub proof fn lemma_cooldown_respected(
        &self,
        id: Seq<char>,
        earlier: AccountHealth,
        since: u64,
        retry_after: u64,
        req: RequestModel,
        now: u64,
    )
        requires
            self.wf(),
            self.tracker().health(id) == earlier.after_rate_limit(since, retry_after),
            since <= now < since + retry_after,
            since + retry_after <= u64::MAX,
            self.decide(req, now) is Account,
            self.decide(req, now)->Account_0 == Via::Sticky ==> self.sticky().fallback_on_unhealthy,
        ensures
            self.ids()[self.decide(req, now)->Account_1] != id,
    {
        self.lemma_selected_is_eligible(req, now);
        crate::health::lemma_rate_limit_holds(
            earlier,
            since,
            retry_after,
            now,
            self.tracker().max_failures(),
        );
    }
}

fn has_id(accounts: &Vec<Account>, id: &str) -> (r: bool)
    ensures
        r == ids_of(accounts@).contains(id@),
{
    let mut i: usize = 0;
    while i < accounts.len()
        invariant
            i <= accounts.len(),
            forall|k: int| 0 <= k < i ==> (#[trigger] ids_of(accounts@)[k]) != id@,
        decreases accounts.len() - i,
    {
        if same_text(accounts[i].account_id.as_str(), id) {
            assert(ids_of(accounts@)[i as int] == id@);
            return true;
        }
        i += 1;
    }
    false
}

} // verus!
