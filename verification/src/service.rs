//! The gateway service as its controller sees it: start and stop, status,
//! and the settings that can change while it runs.
//!
//! The caller owns the listener and the files. It loads the accounts and
//! the settings, binds the port, and saves what is to be kept; the functions
//! here decide and keep the service's state.

use crate::account::Account;
use crate::monitor::{LatencyEstimates, ProxyMonitor, ProxyStats, RequestLog, StatusCounts};
use crate::router::{ModelMapping, ModelRouter};
use crate::scheduler::{first_of_each, TokenManager};
use crate::sticky::StickySessionConfig;
use crate::text::{decimal, is_blank, is_blank_text, opt_text, push_decimal};
use crate::zai::{UpstreamProxyConfig, ZaiConfig};
use vstd::prelude::*;

verus! {

/// Whether the gateway runs, and where.
#[derive(Debug)]
pub struct ProxyStatus {
    pub running: bool,
    pub port: u16,
    pub base_url: String,
    pub active_accounts: usize,
}

/// The settings of the gateway.
#[derive(Debug)]
pub struct ProxyConfig {
    pub bind_addr: String,
    pub port: u16,
    pub request_timeout_secs: u64,
    pub upstream_proxy: UpstreamProxyConfig,
    pub enable_logging: bool,
    /// Whether the service starts with the application.
    pub auto_start: bool,
    /// The key that clients present.
    pub api_key: String,
    pub custom_mapping: ModelMapping,
    pub scheduling: StickySessionConfig,
    pub preferred_account_id: Option<String>,
    pub zai: ZaiConfig,
    /// The names of the experimental features that are switched on.
    pub experimental: Vec<String>,
}

/// A running service.
pub struct ProxyServiceInstance {
    pub config: ProxyConfig,
    pub token_manager: TokenManager,
    pub router: ModelRouter,
}

/// The service, running or not, and its monitor.
pub struct ProxyServiceState {
    pub instance: Option<ProxyServiceInstance>,
    pub monitor: Option<ProxyMonitor>,
}

/// Why the controller was refused.
#[derive(Clone, Copy, Debug, PartialEq, Eq, Structural)]
pub enum ServiceError {
    /// The service runs already.
    AlreadyRunning,
    /// The service does not run.
    NotRunning,
    /// No account is loaded and the API-key provider does not serve.
    NoAccounts,
    /// The service does not run, so its live settings cannot change.
    NotRunningNoUpdate,
}

/// Logs that the monitor keeps.
pub const MONITOR_CAPACITY: usize = 1000;

/// Logs returned where the caller names no limit.
pub const DEFAULT_LOG_LIMIT: usize = 100;

/// Consecutive failures at which an account is quarantined.
pub const MAX_FAILURES: u32 = 3;

/// Seconds after its last failure at which a quarantine ends.
pub const QUARANTINE_SECS: u64 = 300;

/// The address that clients point their SDK at.
pub open spec fn local_base_url(port: u16) -> Seq<char> {
    "http://127.0.0.1:"@ + decimal(port as nat)
}

impl ServiceError {
    /// The message shown for this error.
    pub open spec fn text(self) -> Seq<char> {
        match self {
            ServiceError::AlreadyRunning => "服务已在运行中"@,
            ServiceError::NotRunning => "服务未运行"@,
            ServiceError::NoAccounts => "没有可用账号，请先添加账号"@,
            ServiceError::NotRunningNoUpdate => "服务未运行，无法更新实时配置"@,
        }
    }

    /// The message shown for this error.
    pub fn message(&self) -> (r: &'static str)
        ensures
            r@ == self.text(),
    {
        match self {
            ServiceError::AlreadyRunning => "服务已在运行中",
            ServiceError::NotRunning => "服务未运行",
            ServiceError::NoAccounts => "没有可用账号，请先添加账号",
            ServiceError::NotRunningNoUpdate => "服务未运行，无法更新实时配置",
        }
    }
}

impl ProxyStatus {
    /// The status of a gateway that does not run.
    pub fn stopped() -> (r: ProxyStatus)
        ensures
            !r.running,
            r.port == 0,
            r.base_url@ == Seq::<char>::empty(),
            r.active_accounts == 0,
    {
        ProxyStatus { running: false, port: 0, base_url: String::new(), active_accounts: 0 }
    }

    /// The status of a gateway that listens on `port` with `active_accounts`
    /// accounts loaded.
    pub fn listening(port: u16, active_accounts: usize) -> (r: ProxyStatus)
        ensures
            r.running,
            r.port == port,
            r.base_url@ == local_base_url(port),
            r.active_accounts == active_accounts,
    {
        let mut base_url = String::from_str("http://127.0.0.1:");
        push_decimal(&mut base_url, port as u64);
        ProxyStatus { running: true, port, base_url, active_accounts }
    }
}

impl ProxyServiceInstance {
    /// The parts are sound.
    pub open spec fn wf(&self) -> bool {
        self.token_manager.wf()
    }
}

/// The preferred account that a request to set it means: none for an id
/// that is missing or blank.
pub open spec fn cleaned_id(id: Option<String>) -> Option<Seq<char>> {
    match id {
        Some(s) => if is_blank_text(s@) {
            None
        } else {
            Some(s@)
        },
        None => None,
    }
}

impl ProxyServiceState {
    /// The parts are sound.
    pub open spec fn wf(&self) -> bool {
        &&& self.instance matches Some(instance) ==> instance.wf()
        &&& self.monitor matches Some(monitor) ==> monitor.wf()
    }

    /// Whether the service runs.
    pub open spec fn running(&self) -> bool {
        self.instance is Some
    }

    /// A service that does not run and has no monitor yet.
    pub fn new() -> (s: ProxyServiceState)
        ensures
            s.wf(),
            !s.running(),
            s.monitor is None,
    {
        ProxyServiceState { instance: None, monitor: None }
    }
}

/// Prepares the start of the service with `config` and the loaded
/// `accounts`.
///
/// A service that runs is not started again. Else the monitor is made, if
/// there is none, and records as `config` says; that stays even where the
/// start fails. The token manager gets the scheduling settings, the
/// preferred account and the accounts. Without any account the start fails
/// unless the API-key provider serves. The instance is returned for the
/// caller to bind its port; `install_proxy_service` then makes it the
/// running one.
pub fn start_proxy_service(
    state: &mut ProxyServiceState,
    config: ProxyConfig,
    accounts: Vec<Account>,
) -> (r: Result<ProxyServiceInstance, ServiceError>)
    requires
        old(state).wf(),
    ensures
        final(state).wf(),
        final(state).instance == old(state).instance,
        old(state).running() ==> r == Err::<ProxyServiceInstance, ServiceError>(
            ServiceError::AlreadyRunning,
        ) && final(state).monitor == old(state).monitor,
        !old(state).running() ==> {
            &&& final(state).monitor matches Some(m) && m.enabled() == config.enable_logging
                && match old(state).monitor {
                Some(before) => m@ == before@ && m.capacity() == before.capacity() && m.counts()
                    == before.counts() && m.latency() == before.latency() && m.by_account()
                    == before.by_account(),
                None => m@ == Seq::<RequestLog>::empty() && m.capacity() == MONITOR_CAPACITY
                    && m.counts() == StatusCounts::zero() && m.latency()
                    == LatencyEstimates::zero() && m.by_account() == Map::<
                    Seq<char>,
                    u64,
                >::empty(),
            }
            &&& if first_of_each(accounts@).len() == 0 && !config.zai.serves() {
                r == Err::<ProxyServiceInstance, ServiceError>(ServiceError::NoAccounts)
            } else {
                &&& r matches Ok(instance)
                &&& instance.wf()
                &&& instance.config == config
                &&& instance.router@ == config.custom_mapping@
                &&& instance.token_manager.pool() == first_of_each(accounts@)
                &&& instance.token_manager.sticky() == config.scheduling
                &&& instance.token_manager.preferred() == opt_text(config.preferred_account_id)
                &&& instance.token_manager.zai_first() == (config.zai.enabled
                    && config.zai.dispatch_mode == crate::zai::ZaiDispatchMode::Primary)
                &&& instance.token_manager.zai_last() == (config.zai.enabled
                    && config.zai.dispatch_mode == crate::zai::ZaiDispatchMode::Fallback)
                &&& instance.token_manager.tracker().max_failures() == MAX_FAILURES
                &&& instance.token_manager.tracker().cooldown_secs() == QUARANTINE_SECS
                &&& forall|s: Seq<char>| instance.token_manager.sessions().binding(s) is None
                &&& forall|p: crate::account::Provider| #[trigger]
                    instance.token_manager.cursor(p) == 0
            }
        },
{
    if state.instance.is_some() {
        return Err(ServiceError::AlreadyRunning);
    }
    match &mut state.monitor {
        Some(monitor) => {
            monitor.set_enabled(config.enable_logging);
        },
        None => {
            let mut monitor = ProxyMonitor::new(MONITOR_CAPACITY);
            monitor.set_enabled(config.enable_logging);
            state.monitor = Some(monitor);
        },
    }
    let mut manager = TokenManager::new(MAX_FAILURES, QUARANTINE_SECS, config.scheduling.duplicate());
    manager.set_zai(config.zai.enabled, config.zai.dispatch_mode);
    match &config.preferred_account_id {
        Some(id) => {
            manager.set_preferred_account(Some(id.clone()));
        },
        None => {},
    }
    let active_accounts = manager.load_accounts(accounts);
    if active_accounts == 0 && !config.zai.is_serving() {
        return Err(ServiceError::NoAccounts);
    }
    let router = ModelRouter::new(config.custom_mapping.duplicate());
    Ok(ProxyServiceInstance { config, token_manager: manager, router })
}

/// Makes `instance` the running service, once its port is bound. Returns
/// the status of the running service.
pub fn install_proxy_service(state: &mut ProxyServiceState, instance: ProxyServiceInstance) -> (status:
    ProxyStatus)
    requires
        old(state).wf(),
        instance.wf(),
    ensures
        final(state).wf(),
        final(state).instance == Some(instance),
        final(state).monitor == old(state).monitor,
        status.running,
        status.port == instance.config.port,
        status.base_url@ == local_base_url(instance.config.port),
        status.active_accounts == instance.token_manager.pool().len(),
{
    let status = ProxyStatus::listening(instance.config.port, instance.token_manager.len());
    state.instance = Some(instance);
    status
}

/// Stops the service. The instance that ran is returned for the caller to
/// close its listener.
pub fn stop_proxy_service(state: &mut ProxyServiceState) -> (r: Result<
    ProxyServiceInstance,
    ServiceError,
>)
    requires
        old(state).wf(),
    ensures
        final(state).wf(),
        !final(state).running(),
        final(state).monitor == old(state).monitor,
        match old(state).instance {
            Some(instance) => r == Ok::<ProxyServiceInstance, ServiceError>(instance),
            None => r == Err::<ProxyServiceInstance, ServiceError>(ServiceError::NotRunning),
        },
{
    match state.instance.take() {
        Some(instance) => Ok(instance),
        None => Err(ServiceError::NotRunning),
    }
}

/// The status of the service.
pub fn get_proxy_status(state: &ProxyServiceState) -> (status: ProxyStatus)
    ensures
        match state.instance {
            Some(instance) => status.running && status.port == instance.config.port
                && status.base_url@ == local_base_url(instance.config.port)
                && status.active_accounts == instance.token_manager.pool().len(),
            None => !status.running && status.port == 0 && status.base_url@ == Seq::<
                char,
            >::empty() && status.active_accounts == 0,
        },
{
    match &state.instance {
        Some(instance) => ProxyStatus::listening(instance.config.port, instance.token_manager.len()),
        None => ProxyStatus::stopped(),
    }
}

/// The counts of the monitor; zeros where there is no monitor.
pub fn get_proxy_stats(state: &ProxyServiceState) -> (stats: ProxyStats)
    requires
        state.wf(),
    ensures
        match state.monitor {
            Some(monitor) => {
                &&& stats.counts == monitor.counts()
                &&& stats.latency == monitor.latency()
                &&& stats.by_account@.len() == monitor.accounts_seen().len()
                &&& stats.by_account@.len() == monitor.by_account().dom().len()
                &&& forall|i: int|
                    0 <= i < stats.by_account@.len() ==> {
                        let entry = #[trigger] stats.by_account@[i];
                        &&& entry.0@ == monitor.accounts_seen()[i]
                        &&& monitor.by_account().contains_key(entry.0@)
                        &&& monitor.by_account()[entry.0@] == entry.1
                    }
            },
            None => stats.counts == StatusCounts::zero() && stats.latency
                == LatencyEstimates::zero() && stats.by_account@.len() == 0,
        },
{
    match &state.monitor {
        Some(monitor) => monitor.get_stats(),
        None => ProxyStats {
            counts: StatusCounts::new(),
            latency: LatencyEstimates::new(),
            by_account: Vec::new(),
        },
    }
}

/// The newest logs of the monitor, newest first: `limit` of them, or
/// `DEFAULT_LOG_LIMIT` where no limit is named. None where there is no
/// monitor.
pub fn get_proxy_logs(state: &ProxyServiceState, limit: Option<usize>) -> (logs: Vec<RequestLog>)
    requires
        state.wf(),
    ensures
        match state.monitor {
            Some(monitor) => {
                let n = match limit {
                    Some(n) => n,
                    None => DEFAULT_LOG_LIMIT,
                };
                &&& logs@.len() == crate::monitor::newest(monitor@, n as int).len()
                &&& forall|i: int|
                    0 <= i < logs@.len() ==> (#[trigger] logs@[i]) == crate::monitor::newest(
                        monitor@,
                        n as int,
                    )[i].summarized()
            },
            None => logs@.len() == 0,
        },
{
    match &state.monitor {
        Some(monitor) => {
            let n = match limit {
                Some(n) => n,
                None => DEFAULT_LOG_LIMIT,
            };
            monitor.get_logs(n)
        },
        None => Vec::new(),
    }
}

/// Turns the monitor's recording on or off. Without a monitor nothing
/// happens.
pub fn set_proxy_monitor_enabled(state: &mut ProxyServiceState, enabled: bool)
    requires
        old(state).wf(),
    ensures
        final(state).wf(),
        final(state).instance == old(state).instance,
        match old(state).monitor {
            Some(before) => final(state).monitor matches Some(m) && m.enabled() == enabled && m@
                == before@ && m.capacity() == before.capacity() && m.counts() == before.counts()
                && m.latency() == before.latency() && m.by_account() == before.by_account(),
            None => final(state).monitor is None,
        },
{
    match &mut state.monitor {
        Some(monitor) => {
            monitor.set_enabled(enabled);
        },
        None => {},
    }
}

/// Forgets the monitor's logs and counts. Without a monitor nothing
/// happens.
pub fn clear_proxy_logs(state: &mut ProxyServiceState)
    requires
        old(state).wf(),
    ensures
        final(state).wf(),
        final(state).instance == old(state).instance,
        match old(state).monitor {
            Some(before) => final(state).monitor matches Some(m) && m@ == Seq::<
                RequestLog,
            >::empty() && m.counts() == StatusCounts::zero() && m.latency()
                == LatencyEstimates::zero() && m.by_account() == Map::<Seq<char>, u64>::empty()
                && m.enabled() == before.enabled() && m.capacity() == before.capacity(),
            None => final(state).monitor is None,
        },
{
    match &mut state.monitor {
        Some(monitor) => {
            monitor.clear();
        },
        None => {},
    }
}

/// Replaces the accounts of the running service by `accounts`, after all
/// session bindings were dropped: a session must not stay with an account
/// that the user has switched away from. Returns the number of accounts.
pub fn reload_proxy_accounts(state: &mut ProxyServiceState, accounts: Vec<Account>) -> (r: Result<
    usize,
    ServiceError,
>)
    requires
        old(state).wf(),
    ensures
        final(state).wf(),
        final(state).monitor == old(state).monitor,
        match old(state).instance {
            Some(before) => {
                &&& final(state).instance matches Some(after)
                &&& r == Ok::<usize, ServiceError>(first_of_each(accounts@).len() as usize)
                &&& after.token_manager.pool() == first_of_each(accounts@)
                &&& forall|s: Seq<char>| after.token_manager.sessions().binding(s) is None
                &&& after.token_manager.tracker() == before.token_manager.tracker()
                &&& after.token_manager.sticky() == before.token_manager.sticky()
                &&& after.token_manager.preferred() == before.token_manager.preferred()
                &&& after.token_manager.zai_first() == before.token_manager.zai_first()
                &&& after.token_manager.zai_last() == before.token_manager.zai_last()
                &&& before.token_manager.same_cursors(&after.token_manager)
                &&& after.config == before.config
                &&& after.router == before.router
            },
            None => r == Err::<usize, ServiceError>(ServiceError::NotRunning) && final(state).instance is None,
        },
{
    match &mut state.instance {
        Some(instance) => {
            instance.token_manager.clear_all_sessions();
            let count = instance.token_manager.load_accounts(accounts);
            Ok(count)
        },
        None => Err(ServiceError::NotRunning),
    }
}

/// Puts `mapping` in force in the running service. Returns whether the
/// service runs; the caller saves the mapping either way.
pub fn update_model_mapping(state: &mut ProxyServiceState, mapping: &ModelMapping) -> (live: bool)
    requires
        old(state).wf(),
    ensures
        final(state).wf(),
        final(state).monitor == old(state).monitor,
        live == old(state).running(),
        match old(state).instance {
            Some(before) => {
                &&& final(state).instance matches Some(after)
                &&& after.router@ == mapping@
                &&& after.config.custom_mapping@ == mapping@
                &&& after.config == (ProxyConfig {
                    custom_mapping: after.config.custom_mapping,
                    ..before.config
                })
                &&& after.token_manager == before.token_manager
            },
            None => final(state).instance is None,
        },
{
    match &mut state.instance {
        Some(instance) => {
            instance.router.update_mapping(mapping.duplicate());
            instance.config.custom_mapping = mapping.duplicate();
            true
        },
        None => false,
    }
}

/// The scheduling settings in force; the default settings where the
/// service does not run.
pub fn get_proxy_scheduling_config(state: &ProxyServiceState) -> (config: StickySessionConfig)
    ensures
        match state.instance {
            Some(instance) => config == instance.token_manager.sticky(),
            None => {
                &&& config.enabled
                &&& config.sticky_ttl_secs == 600
                &&& config.session_key matches crate::sticky::SessionKey::Header(name) && name@
                    == "x-session-id"@
                &&& config.fallback_on_unhealthy
                &&& config.max_bindings == 1024
            },
        },
{
    match &state.instance {
        Some(instance) => instance.token_manager.get_sticky_config(),
        None => StickySessionConfig::default(),
    }
}

/// Puts the scheduling settings `config` in force. The service must run.
///
/// The session bindings stay. Only where the new settings leave a shard
/// less room than it has bindings, those hit least recently go until the
/// rest fits; with as much room as before, or more, every binding stays.
pub fn update_proxy_scheduling_config(state: &mut ProxyServiceState, config: StickySessionConfig) -> (r:
    Result<(), ServiceError>)
    requires
        old(state).wf(),
    ensures
        final(state).wf(),
        final(state).monitor == old(state).monitor,
        match old(state).instance {
            Some(before) => {
                &&& r is Ok
                &&& final(state).instance matches Some(after)
                &&& after.token_manager.sticky() == config
                &&& after.token_manager.pool() == before.token_manager.pool()
                &&& after.token_manager.tracker() == before.token_manager.tracker()
                &&& after.token_manager.preferred() == before.token_manager.preferred()
                &&& after.token_manager.zai_first() == before.token_manager.zai_first()
                &&& after.token_manager.zai_last() == before.token_manager.zai_last()
                &&& before.token_manager.same_cursors(&after.token_manager)
                &&& before.token_manager.sessions().resized(
                    config.max_bindings,
                    &after.token_manager.sessions(),
                )
                &&& config.max_bindings == before.token_manager.sticky().max_bindings
                    ==> after.token_manager.sessions() == before.token_manager.sessions()
                &&& config.max_bindings >= before.token_manager.sticky().max_bindings ==> (forall|
                    s: Seq<char>,
                |
                    #![trigger after.token_manager.sessions().binding(s)]
                    after.token_manager.sessions().binding(s)
                        == before.token_manager.sessions().binding(s))
                &&& after.config == before.config
                &&& after.router == before.router
            },
            None => r == Err::<(), ServiceError>(ServiceError::NotRunningNoUpdate) && final(state).instance is None,
        },
{
    match &mut state.instance {
        Some(instance) => {
            instance.token_manager.update_sticky_config(config);
            Ok(())
        },
        None => Err(ServiceError::NotRunningNoUpdate),
    }
}

/// Drops every session binding. The service must run.
pub fn clear_proxy_session_bindings(state: &mut ProxyServiceState) -> (r: Result<(), ServiceError>)
    requires
        old(state).wf(),
    ensures
        final(state).wf(),
        final(state).monitor == old(state).monitor,
        match old(state).instance {
            Some(before) => {
                &&& r is Ok
                &&& final(state).instance matches Some(after)
                &&& forall|s: Seq<char>| after.token_manager.sessions().binding(s) is None
                &&& before.token_manager.same_setup(&after.token_manager)
                &&& before.token_manager.same_cursors(&after.token_manager)
                &&& after.token_manager.tracker() == before.token_manager.tracker()
                &&& after.config == before.config
                &&& after.router == before.router
            },
            None => r == Err::<(), ServiceError>(ServiceError::NotRunning) && final(state).instance is None,
        },
{
    match &mut state.instance {
        Some(instance) => {
            instance.token_manager.clear_all_sessions();
            Ok(())
        },
        None => Err(ServiceError::NotRunning),
    }
}

/// Sets the preferred account of the running service: fixed-account mode
/// with `account_id`, or rotation where the id is missing or blank. Returns
/// the id that is now in force, for the caller to save.
pub fn set_preferred_account(state: &mut ProxyServiceState, account_id: Option<String>) -> (r: Result<
    Option<String>,
    ServiceError,
>)
    requires
        old(state).wf(),
    ensures
        final(state).wf(),
        final(state).monitor == old(state).monitor,
        match old(state).instance {
            Some(before) => {
                &&& r matches Ok(kept)
                &&& opt_text(kept) == cleaned_id(account_id)
                &&& final(state).instance matches Some(after)
                &&& after.token_manager.preferred() == cleaned_id(account_id)
                &&& after.token_manager.pool() == before.token_manager.pool()
                &&& after.token_manager.tracker() == before.token_manager.tracker()
                &&& after.token_manager.sessions() == before.token_manager.sessions()
                &&& after.token_manager.sticky() == before.token_manager.sticky()
                &&& after.token_manager.zai_first() == before.token_manager.zai_first()
                &&& after.token_manager.zai_last() == before.token_manager.zai_last()
                &&& before.token_manager.same_cursors(&after.token_manager)
                &&& after.config == before.config
                &&& after.router == before.router
            },
            None => r == Err::<Option<String>, ServiceError>(ServiceError::NotRunning) && final(state).instance is None,
        },
{
    match &mut state.instance {
        Some(instance) => {
            let cleaned = match account_id {
                Some(id) => if is_blank(id.as_str()) {
                    None
                } else {
                    Some(id)
                },
                None => None,
            };
            let kept = match &cleaned {
                Some(id) => Some(id.clone()),
                None => None,
            };
            instance.token_manager.set_preferred_account(cleaned);
            Ok(kept)
        },
        None => Err(ServiceError::NotRunning),
    }
}

/// The preferred account of the running service.
pub fn get_preferred_account(state: &ProxyServiceState) -> (id: Option<String>)
    ensures
        match state.instance {
            Some(instance) => opt_text(id) == instance.token_manager.preferred(),
            None => id is None,
        },
{
    match &state.instance {
        Some(instance) => instance.token_manager.get_preferred_account(),
        None => None,
    }
}

} // verus!
