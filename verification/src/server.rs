//! Admission control and statistics: the state that all connections share.
//!
//! Time is a number of milliseconds on a clock that never runs backwards;
//! whoever calls reads the clock.

use crate::cli::Cli;
use crate::error::AppError;
use crate::pattern::{all_compile, listed_patterns, parse_allowed_extensions, patterns_view};
use crate::router::{option_view, EntryKind};
use crate::text::{append_decimal, decimal};
use std::collections::HashMap;
use vstd::prelude::*;
use vstd::string::*;

verus! {

broadcast use vstd::std_specs::hash::group_hash_axioms;

/// The length of the window in which requests are counted, in milliseconds.
pub const WINDOW_MS: u64 = 60_000;

/// How long an address is remembered after its window began, in
/// milliseconds.
pub const RETENTION_MS: u64 = 300_000;

/// What the limiter knows of one address.
#[derive(Debug, Clone, Copy, PartialEq, Eq)]
pub struct ConnectionInfo {
    /// The requests admitted in the current window.
    pub request_count: u32,
    /// When the current window began.
    pub last_reset: u64,
    /// The connections that were admitted and not yet released.
    pub active_connections: u32,
}

/// The time from `since` to `now`, and 0 where `since` is later.
pub open spec fn elapsed(now: u64, since: u64) -> int {
    if now >= since {
        now - since
    } else {
        0
    }
}

/// The entry of an address at time `now`, before a request is judged: a new
/// address starts with nothing, and a window that has lasted more than a
/// minute starts afresh.
pub open spec fn current(info: Option<ConnectionInfo>, now: u64) -> ConnectionInfo {
    match info {
        None => ConnectionInfo { request_count: 0, last_reset: now, active_connections: 0 },
        Some(i) => if elapsed(now, i.last_reset) > WINDOW_MS {
            ConnectionInfo {
                request_count: 0,
                last_reset: now,
                active_connections: i.active_connections,
            }
        } else {
            i
        },
    }
}

/// Whether an address with this entry may open one more connection: it is
/// below both limits.
pub open spec fn admits(info: ConnectionInfo, max_requests: u32, max_concurrent: u32) -> bool {
    info.active_connections < max_concurrent && info.request_count < max_requests
}

/// The entry after a request was judged: an admitted one counts as a request
/// and as a connection, a rejected one changes nothing.
pub open spec fn judged(info: ConnectionInfo, max_requests: u32, max_concurrent: u32)
    -> ConnectionInfo {
    if admits(info, max_requests, max_concurrent) {
        ConnectionInfo {
            request_count: (info.request_count + 1) as u32,
            last_reset: info.last_reset,
            active_connections: (info.active_connections + 1) as u32,
        }
    } else {
        info
    }
}

/// The entry after one connection was closed. The count stops at zero.
pub open spec fn released(info: ConnectionInfo) -> ConnectionInfo {
    ConnectionInfo {
        request_count: info.request_count,
        last_reset: info.last_reset,
        active_connections: if info.active_connections > 0 {
            (info.active_connections - 1) as u32
        } else {
            0
        },
    }
}

/// Whether an entry is still to be kept at time `now`.
pub open spec fn retained(info: ConnectionInfo, now: u64) -> bool {
    elapsed(now, info.last_reset) <= RETENTION_MS
}

/// Limits the requests per minute and the open connections of each address.
/// An address is a number: an IPv4 or IPv6 address as an integer.
pub struct RateLimiter {
    connections: HashMap<u128, ConnectionInfo>,
    max_requests_per_minute: u32,
    max_concurrent_per_ip: u32,
}

impl RateLimiter {
    /// The entries, by address.
    pub closed spec fn entries(&self) -> Map<u128, ConnectionInfo> {
        self.connections@
    }

    /// The most requests that an address may make in one window.
    pub closed spec fn max_requests(&self) -> u32 {
        self.max_requests_per_minute
    }

    /// The most connections that an address may have open.
    pub closed spec fn max_concurrent(&self) -> u32 {
        self.max_concurrent_per_ip
    }

    /// The entry of `ip`, where it has one.
    pub open spec fn entry(&self, ip: u128) -> Option<ConnectionInfo> {
        if self.entries().contains_key(ip) {
            Some(self.entries()[ip])
        } else {
            None
        }
    }

    /// A limiter that knows no address yet.
    pub fn new(max_requests_per_minute: u32, max_concurrent_per_ip: u32) -> (limiter: RateLimiter)
        ensures
            limiter.entries() == Map::<u128, ConnectionInfo>::empty(),
            limiter.max_requests() == max_requests_per_minute,
            limiter.max_concurrent() == max_concurrent_per_ip,
    {
        RateLimiter {
            connections: HashMap::new(),
            max_requests_per_minute,
            max_concurrent_per_ip,
        }
    }

    /// What the limiter knows of `ip`.
    pub fn connection_info(&self, ip: u128) -> (info: Option<ConnectionInfo>)
        ensures
            info == self.entry(ip),
    {
        match self.connections.get(&ip) {
            Some(info) => Some(*info),
            None => None,
        }
    }

    /// Judges a new connection from `ip` at time `now`, and counts it where
    /// it is admitted. A connection is rejected when the address has as many
    /// connections open as it may, or has made as many requests in the
    /// current window as it may. Judging and counting are one step.
    pub fn check_rate_limit(&mut self, ip: u128, now: u64) -> (admitted: bool)
        ensures
            admitted == admits(
                current(old(self).entry(ip), now),
                old(self).max_requests(),
                old(self).max_concurrent(),
            ),
            final(self).entries() == old(self).entries().insert(
                ip,
                judged(
                    current(old(self).entry(ip), now),
                    old(self).max_requests(),
                    old(self).max_concurrent(),
                ),
            ),
            final(self).max_requests() == old(self).max_requests(),
            final(self).max_concurrent() == old(self).max_concurrent(),
    {
        let mut info = match self.connections.get(&ip) {
            Some(found) => *found,
            None => ConnectionInfo { request_count: 0, last_reset: now, active_connections: 0 },
        };
        if now.saturating_sub(info.last_reset) > WINDOW_MS {
            info.request_count = 0;
            info.last_reset = now;
        }
        let admitted = info.active_connections < self.max_concurrent_per_ip && info.request_count
            < self.max_requests_per_minute;
        if admitted {
            info.request_count = info.request_count + 1;
            info.active_connections = info.active_connections + 1;
        }
        self.connections.insert(ip, info);
        admitted
    }

    /// Records that a connection from `ip` was closed. An address that the
    /// limiter does not know is left unknown.
    pub fn release_connection(&mut self, ip: u128)
        ensures
            final(self).entries() == match old(self).entry(ip) {
                Some(info) => old(self).entries().insert(ip, released(info)),
                None => old(self).entries(),
            },
            final(self).max_requests() == old(self).max_requests(),
            final(self).max_concurrent() == old(self).max_concurrent(),
    {
        let found = match self.connections.get(&ip) {
            Some(info) => Some(*info),
            None => None,
        };
        match found {
            Some(info) => {
                let next = ConnectionInfo {
                    request_count: info.request_count,
                    last_reset: info.last_reset,
                    active_connections: info.active_connections.saturating_sub(1),
                };
                self.connections.insert(ip, next);
            },
            None => {},
        }
    }

    /// Forgets every address whose window began more than five minutes
    /// ago; the others stay as they are.
    pub fn cleanup_old_entries(&mut self, now: u64)
        ensures
            final(self).entries() == Map::new(
                |ip: u128| old(self).entries().contains_key(ip) && retained(old(self).entries()[ip], now),
                |ip: u128| old(self).entries()[ip],
            ),
            final(self).max_requests() == old(self).max_requests(),
            final(self).max_concurrent() == old(self).max_concurrent(),
    {
        let mut addresses: Vec<u128> = Vec::new();
        let ghost before = self.connections@;
        for ip in it: self.connections.keys()
            invariant
                it.seq().unref().to_set() == before.dom(),
                addresses@ == it.seq().unref().take(it.index()),
                it.index() == it.seq().len() ==> addresses@.to_set() == before.dom(),
                self.connections@ == before,
        {
            addresses.push(*ip);
            assert(it.seq().unref().take(it.index() + 1) == it.seq().unref().take(
                it.index(),
            ).push(it.seq().unref()[it.index()]));
            assert(it.index() + 1 == it.seq().len() ==> it.seq().unref().take(it.index() + 1)
                == it.seq().unref());
        }
        let mut i: usize = 0;
        while i < addresses.len()
            invariant
                i <= addresses@.len(),
                addresses@.to_set() == before.dom(),
                self.max_requests_per_minute == old(self).max_requests_per_minute,
                self.max_concurrent_per_ip == old(self).max_concurrent_per_ip,
                before == old(self).connections@,
                forall|ip: u128| #[trigger]
                    self.connections@.contains_key(ip) ==> before.contains_key(ip)
                        && self.connections@[ip] == before[ip],
                forall|ip: u128| #[trigger]
                    before.contains_key(ip) ==> (self.connections@.contains_key(ip) <==> (retained(
                        before[ip],
                        now,
                    ) || !addresses@.take(i as int).contains(ip))),
            decreases addresses@.len() - i,
        {
            let ip = addresses[i];
            let stale = match self.connections.get(&ip) {
                Some(info) => now.saturating_sub(info.last_reset) > RETENTION_MS,
                None => false,
            };
            if stale {
                self.connections.remove(&ip);
            }
            proof {
                let seen = addresses@.take(i as int);
                let next = addresses@.take(i + 1);
                assert(next == seen.push(ip));
                assert forall|a: u128| next.contains(a) <==> seen.contains(a) || a == ip by {
                    if seen.contains(a) {
                        let k = choose|k: int| 0 <= k < seen.len() && seen[k] == a;
                        assert(next[k] == a);
                    }
                    if a == ip {
                        assert(next[i as int] == a);
                    }
                }
            }
            i += 1;
        }
        proof {
            assert(addresses@.take(addresses@.len() as int) == addresses@);
            assert forall|ip: u128| before.contains_key(ip) implies addresses@.contains(ip) by {
                assert(addresses@.to_set().contains(ip));
            }
            assert(self.connections@ =~= Map::new(
                |ip: u128| before.contains_key(ip) && retained(before[ip], now),
                |ip: u128| before[ip],
            ));
        }
    }
}


/// What the acceptor met when it looked for work.
#[derive(Debug, Clone, Copy, PartialEq, Eq)]
pub enum AcceptEvent {
    /// The signal to shut down has come.
    Shutdown,
    /// A connection from this address has arrived.
    Connection(u128),
    /// No connection is waiting.
    WouldBlock,
    /// Accepting failed for another reason.
    Failed,
}

/// What the acceptor does next.
#[derive(Debug, Clone, Copy, PartialEq, Eq)]
pub enum AcceptAction {
    /// Take no more connections and let the workers finish.
    Stop,
    /// Hand the connection to a worker.
    Dispatch,
    /// Close the connection at once.
    Reject,
    /// Sleep for so many milliseconds, then look again.
    Wait(u64),
    /// Look again.
    Continue,
}

/// How long the acceptor sleeps when no connection is waiting, in
/// milliseconds.
pub const POLL_INTERVAL_MS: u64 = 100;

impl RateLimiter {
    /// One step of the accept loop: what to do about `event` at time `now`.
    /// Only an arriving connection touches the limiter: it is judged, and
    /// dispatched or rejected by the verdict.
    pub fn accept_step(&mut self, event: AcceptEvent, now: u64) -> (action: AcceptAction)
        ensures
            final(self).max_requests() == old(self).max_requests(),
            final(self).max_concurrent() == old(self).max_concurrent(),
            match event {
                AcceptEvent::Shutdown => action == AcceptAction::Stop && final(self).entries()
                    == old(self).entries(),
                AcceptEvent::WouldBlock => action == AcceptAction::Wait(POLL_INTERVAL_MS)
                    && final(self).entries() == old(self).entries(),
                AcceptEvent::Failed => action == AcceptAction::Continue && final(self).entries()
                    == old(self).entries(),
                AcceptEvent::Connection(ip) => {
                    let info = current(old(self).entry(ip), now);
                    &&& action == if admits(
                        info,
                        old(self).max_requests(),
                        old(self).max_concurrent(),
                    ) {
                        AcceptAction::Dispatch
                    } else {
                        AcceptAction::Reject
                    }
                    &&& final(self).entries() == old(self).entries().insert(
                        ip,
                        judged(info, old(self).max_requests(), old(self).max_concurrent()),
                    )
                },
            },
    {
        match event {
            AcceptEvent::Shutdown => AcceptAction::Stop,
            AcceptEvent::WouldBlock => AcceptAction::Wait(POLL_INTERVAL_MS),
            AcceptEvent::Failed => AcceptAction::Continue,
            AcceptEvent::Connection(ip) => {
                if self.check_rate_limit(ip, now) {
                    AcceptAction::Dispatch
                } else {
                    AcceptAction::Reject
                }
            },
        }
    }
}

/// The entry of one address after connection attempts at the times `times`,
/// one after the other and none of them released.
pub open spec fn after_attempts(
    info: Option<ConnectionInfo>,
    times: Seq<u64>,
    max_requests: u32,
    max_concurrent: u32,
) -> Option<ConnectionInfo>
    decreases times.len(),
{
    if times.len() == 0 {
        info
    } else {
        Some(
            judged(
                current(
                    after_attempts(info, times.drop_last(), max_requests, max_concurrent),
                    times.last(),
                ),
                max_requests,
                max_concurrent,
            ),
        )
    }
}

/// As long as an address stays within the limit on open connections, and
/// that limit is not above the limit on requests, each of its attempts is
/// admitted: it has as many connections open as it made attempts.
pub proof fn lemma_attempts_within_limit(times: Seq<u64>, max_requests: u32, max_concurrent: u32)
    requires
        0 < times.len() <= max_concurrent <= max_requests,
    ensures
        after_attempts(None, times, max_requests, max_concurrent) matches Some(info)
            && info.active_connections == times.len() && info.request_count <= times.len(),
    decreases times.len(),
{
    let earlier = after_attempts(None, times.drop_last(), max_requests, max_concurrent);
    if times.len() > 1 {
        lemma_attempts_within_limit(times.drop_last(), max_requests, max_concurrent);
    } else {
        assert(times.drop_last().len() == 0);
        assert(earlier is None);
    }
    let now = current(earlier, times.last());
    assert(now.active_connections == times.len() - 1);
    assert(now.request_count <= times.len() - 1);
    assert(admits(now, max_requests, max_concurrent));
}

/// Admission control. An address that has opened as many connections as it
/// may, and closed none, has the next one rejected, whenever it comes. Once
/// one of them is closed, the next one is admitted again.
pub proof fn lemma_admission_control(
    times: Seq<u64>,
    next: u64,
    max_requests: u32,
    max_concurrent: u32,
)
    requires
        0 < max_concurrent < max_requests,
        times.len() == max_concurrent,
    ensures
        after_attempts(None, times, max_requests, max_concurrent) matches Some(full) && {
            &&& full.active_connections == max_concurrent
            &&& !admits(current(Some(full), next), max_requests, max_concurrent)
            &&& admits(current(Some(released(full)), next), max_requests, max_concurrent)
        },
{
    lemma_attempts_within_limit(times, max_requests, max_concurrent);
}

/// The sum of two numbers, and the largest number where the sum is larger.
pub open spec fn capped_sum(a: u64, b: u64) -> u64 {
    if a + b > u64::MAX {
        u64::MAX
    } else {
        (a + b) as u64
    }
}

/// Counters of what the server did. A counter that has reached the largest
/// number stays there.
#[derive(Debug, Clone, Copy, PartialEq, Eq)]
pub struct ServerStats {
    pub total_requests: u64,
    pub successful_requests: u64,
    pub error_requests: u64,
    pub bytes_served: u64,
    /// When the server started.
    pub start_time: Option<u64>,
}

impl ServerStats {
    /// The counters of a server that starts at time `now`.
    pub fn new(now: u64) -> (stats: ServerStats)
        ensures
            stats == (ServerStats {
                total_requests: 0,
                successful_requests: 0,
                error_requests: 0,
                bytes_served: 0,
                start_time: Some(now),
            }),
    {
        ServerStats {
            total_requests: 0,
            successful_requests: 0,
            error_requests: 0,
            bytes_served: 0,
            start_time: Some(now),
        }
    }

    /// Counts one request: as served or as failed, with the bytes sent.
    pub fn record_request(&mut self, success: bool, bytes: u64)
        ensures
            *final(self) == (ServerStats {
                total_requests: capped_sum(old(self).total_requests, 1),
                successful_requests: if success {
                    capped_sum(old(self).successful_requests, 1)
                } else {
                    old(self).successful_requests
                },
                error_requests: if success {
                    old(self).error_requests
                } else {
                    capped_sum(old(self).error_requests, 1)
                },
                bytes_served: capped_sum(old(self).bytes_served, bytes),
                start_time: old(self).start_time,
            }),
    {
        self.total_requests = self.total_requests.saturating_add(1);
        if success {
            self.successful_requests = self.successful_requests.saturating_add(1);
        } else {
            self.error_requests = self.error_requests.saturating_add(1);
        }
        self.bytes_served = self.bytes_served.saturating_add(bytes);
    }

    /// The counters, and the time since the start: total, served, failed,
    /// bytes, uptime.
    pub fn get_stats(&self, now: u64) -> (stats: (u64, u64, u64, u64, u64))
        ensures
            stats.0 == self.total_requests,
            stats.1 == self.successful_requests,
            stats.2 == self.error_requests,
            stats.3 == self.bytes_served,
            stats.4 == match self.start_time {
                Some(start) => elapsed(now, start),
                None => 0,
            },
    {
        let uptime = match self.start_time {
            Some(start) => now.saturating_sub(start),
            None => 0,
        };
        (
            self.total_requests,
            self.successful_requests,
            self.error_requests,
            self.bytes_served,
            uptime,
        )
    }
}

/// What the server is run with: settled once at the start and read by every
/// worker.
#[derive(Debug, Clone, PartialEq, Eq)]
pub struct ServerConfig {
    /// The directory that is served, in canonical form.
    pub root: String,
    /// The address to listen on, as `host:port`.
    pub bind_address: String,
    /// The patterns of the files that may be served.
    pub allowed_extensions: Vec<String>,
    pub threads: usize,
    pub chunk_size: usize,
    pub username: Option<String>,
    pub password: Option<String>,
}

/// The address to listen on: the host, a colon, and the port.
pub fn bind_address(listen: &str, port: u16) -> (address: String)
    ensures
        address@ == listen@ + ":"@ + decimal(port as nat),
{
    let mut address = String::from_str(listen);
    address.append(":");
    append_decimal(&mut address, port as u64);
    address
}

impl ServerConfig {
    /// Settles the configuration from the command line, the canonical form
    /// of the directory to serve, and what the file system holds there. It
    /// fails where that is no directory, and where a pattern of the
    /// allow-list is no valid glob.
    pub fn from_cli(cli: &Cli, root: String, kind: EntryKind) -> (config: Result<
        ServerConfig,
        AppError,
    >)
        ensures
            match config {
                Ok(c) => {
                    &&& kind == EntryKind::Directory
                    &&& all_compile(listed_patterns(cli.allowed_extensions@, 0, Seq::empty()))
                    &&& c.root == root
                    &&& c.bind_address@ == cli.listen@ + ":"@ + decimal(cli.port as nat)
                    &&& patterns_view(c.allowed_extensions@) == listed_patterns(
                        cli.allowed_extensions@,
                        0,
                        Seq::empty(),
                    )
                    &&& c.threads == cli.threads
                    &&& c.chunk_size == cli.chunk_size
                    &&& option_view(c.username) == option_view(cli.username)
                    &&& option_view(c.password) == option_view(cli.password)
                },
                Err(e) => if kind == EntryKind::Directory {
                    e is Glob && !all_compile(
                        listed_patterns(cli.allowed_extensions@, 0, Seq::empty()),
                    )
                } else {
                    e matches AppError::DirectoryNotFound(path) && path@ == cli.directory@
                },
            },
    {
        match kind {
            EntryKind::Directory => {},
            _ => {
                return Err(AppError::DirectoryNotFound(cli.directory.clone()));
            },
        }
        let allowed_extensions = match parse_allowed_extensions(cli.allowed_extensions.as_str()) {
            Ok(patterns) => patterns,
            Err(e) => {
                return Err(e);
            },
        };
        Ok(
            ServerConfig {
                root,
                bind_address: bind_address(cli.listen.as_str(), cli.port),
                allowed_extensions,
                threads: cli.threads,
                chunk_size: cli.chunk_size,
                username: cli.username.clone(),
                password: cli.password.clone(),
            },
        )
    }
}

} // verus!
