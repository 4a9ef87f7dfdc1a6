//! The timeout manager: one record per connection, aged out by phase.
//! Every operation takes the clock reading as an argument, so each
//! contract is exact for any reading.

use vstd::prelude::*;

verus! {

/// The five timeout budgets, in milliseconds.
#[derive(Debug, Clone, Copy, PartialEq, Eq, Structural)]
pub struct TimeoutConfig {
    /// Budget for reading request headers.
    pub read_header_timeout: u64,
    /// Budget for reading the request body.
    pub read_body_timeout: u64,
    /// Budget for writing response data.
    pub write_timeout: u64,
    /// Budget for an idle keep-alive connection.
    pub keep_alive_timeout: u64,
    /// Hard budget for a whole request-response cycle.
    pub request_timeout: u64,
}

impl Default for TimeoutConfig {
    /// The default budgets: 5 s headers, 15 s body, 5 s write, 10 s
    /// keep-alive, 30 s per request.
    fn default() -> (r: Self)
        ensures
            r == (TimeoutConfig {
                read_header_timeout: 5000,
                read_body_timeout: 15000,
                write_timeout: 5000,
                keep_alive_timeout: 10000,
                request_timeout: 30000,
            }),
    {
        TimeoutConfig {
            read_header_timeout: 5000,
            read_body_timeout: 15000,
            write_timeout: 5000,
            keep_alive_timeout: 10000,
            request_timeout: 30000,
        }
    }
}

/// The phase a connection is in, which selects its timeout budget.
#[derive(Debug, Clone, Copy, PartialEq, Eq, Structural)]
pub enum ConnectionState {
    ReadingHeaders,
    ReadingBody,
    Writing,
    KeepAlive,
}

/// The budget that applies to a phase.
pub open spec fn phase_timeout(cfg: TimeoutConfig, s: ConnectionState) -> u64 {
    match s {
        ConnectionState::ReadingHeaders => cfg.read_header_timeout,
        ConnectionState::ReadingBody => cfg.read_body_timeout,
        ConnectionState::Writing => cfg.write_timeout,
        ConnectionState::KeepAlive => cfg.keep_alive_timeout,
    }
}

/// One connection's timeout record.
#[derive(Debug, Clone, Copy, PartialEq, Eq, Structural)]
pub struct ConnectionTimeout {
    /// The connection's file descriptor.
    pub fd: i32,
    /// The phase the connection is in.
    pub state: ConnectionState,
    /// Clock reading of the last byte transferred, in milliseconds.
    pub last_activity: u64,
    /// Clock reading of the start of the current request.
    pub request_start: u64,
}

/// Saturating distance between two clock readings.
pub open spec fn elapsed(now: u64, since: u64) -> nat {
    if now > since {
        (now - since) as nat
    } else {
        0
    }
}

/// Whether a record has aged out at reading `now`: its phase budget is
/// spent, or the whole-request budget is.
pub open spec fn is_expired(cfg: TimeoutConfig, c: ConnectionTimeout, now: u64) -> bool {
    elapsed(now, c.last_activity) > phase_timeout(cfg, c.state)
        || elapsed(now, c.request_start) > cfg.request_timeout
}

impl ConnectionTimeout {
    /// A fresh record: reading headers, both stamps at `now`.
    pub fn new(fd: i32, now: u64) -> (r: ConnectionTimeout)
        ensures
            r == (ConnectionTimeout {
                fd,
                state: ConnectionState::ReadingHeaders,
                last_activity: now,
                request_start: now,
            }),
    {
        ConnectionTimeout { fd, state: ConnectionState::ReadingHeaders, last_activity: now, request_start: now }
    }

    /// Marks activity at `now`.
    pub fn update_activity(&mut self, now: u64)
        ensures
            *final(self) == (ConnectionTimeout { last_activity: now, ..*old(self) }),
    {
        self.last_activity = now;
    }

    /// Moves to a new phase and marks activity.
    pub fn set_state(&mut self, state: ConnectionState, now: u64)
        ensures
            *final(self) == (ConnectionTimeout { state, last_activity: now, ..*old(self) }),
    {
        self.state = state;
        self.last_activity = now;
    }

    /// Rearms for the next request on a kept-alive connection.
    pub fn reset_for_new_request(&mut self, now: u64)
        ensures
            *final(self) == (ConnectionTimeout {
                fd: old(self).fd,
                state: ConnectionState::ReadingHeaders,
                last_activity: now,
                request_start: now,
            }),
    {
        self.state = ConnectionState::ReadingHeaders;
        self.last_activity = now;
        self.request_start = now;
    }
}

/// The descriptors of the expired records, in record order.
pub open spec fn expired_fds(s: Seq<ConnectionTimeout>, cfg: TimeoutConfig, now: u64) -> Seq<i32>
    decreases s.len(),
{
    if s.len() == 0 {
        Seq::empty()
    } else {
        (if is_expired(cfg, s[0], now) {
            seq![s[0].fd]
        } else {
            Seq::empty()
        }) + expired_fds(s.drop_first(), cfg, now)
    }
}

/// `expired_fds` distributes over appending one record.
proof fn lemma_expired_fds_snoc(s: Seq<ConnectionTimeout>, c: ConnectionTimeout, cfg: TimeoutConfig, now: u64)
    ensures
        expired_fds(s.push(c), cfg, now) == if is_expired(cfg, c, now) {
            expired_fds(s, cfg, now).push(c.fd)
        } else {
            expired_fds(s, cfg, now)
        },
    decreases s.len(),
{
    reveal_with_fuel(expired_fds, 3);
    if s.len() == 0 {
        assert(s.push(c)[0] == c);
        assert(s.push(c).drop_first() =~= Seq::<ConnectionTimeout>::empty());
        if is_expired(cfg, c, now) {
            assert(expired_fds(s.push(c), cfg, now) =~= expired_fds(s, cfg, now).push(c.fd));
        } else {
            assert(expired_fds(s.push(c), cfg, now) =~= expired_fds(s, cfg, now));
        }
    } else {
        assert(s.push(c)[0] == s[0]);
        assert(s.push(c).drop_first() =~= s.drop_first().push(c));
        lemma_expired_fds_snoc(s.drop_first(), c, cfg, now);
        if is_expired(cfg, c, now) {
            assert(expired_fds(s.push(c), cfg, now) =~= expired_fds(s, cfg, now).push(c.fd));
        } else {
            assert(expired_fds(s.push(c), cfg, now) =~= expired_fds(s, cfg, now));
        }
    }
}

/// A record's remaining budget folded into a running minimum: each of its
/// two deadlines that has not yet passed lowers the minimum.
pub open spec fn fold_remaining(c: ConnectionTimeout, cfg: TimeoutConfig, now: u64, acc: nat) -> nat {
    let t = phase_timeout(cfg, c.state) as nat;
    let e = elapsed(now, c.last_activity);
    let acc1 = if e < t && t - e < acc {
        (t - e) as nat
    } else {
        acc
    };
    let rt = cfg.request_timeout as nat;
    let re = elapsed(now, c.request_start);
    if re < rt && rt - re < acc1 {
        (rt - re) as nat
    } else {
        acc1
    }
}

/// The minimum remaining budget across records, from a starting value.
pub open spec fn min_remaining(s: Seq<ConnectionTimeout>, cfg: TimeoutConfig, now: u64, acc: nat) -> nat
    decreases s.len(),
{
    if s.len() == 0 {
        acc
    } else {
        min_remaining(s.drop_first(), cfg, now, fold_remaining(s[0], cfg, now, acc))
    }
}


/// `c` with activity marked at `now` when it belongs to `fd`.
pub open spec fn touched(c: ConnectionTimeout, fd: i32, now: u64) -> ConnectionTimeout {
    if c.fd == fd {
        ConnectionTimeout { last_activity: now, ..c }
    } else {
        c
    }
}

/// `c` moved to `state` at `now` when it belongs to `fd`.
pub open spec fn moved(c: ConnectionTimeout, fd: i32, state: ConnectionState, now: u64) -> ConnectionTimeout {
    if c.fd == fd {
        ConnectionTimeout { state, last_activity: now, ..c }
    } else {
        c
    }
}

/// `c` rearmed at `now` when it belongs to `fd`.
pub open spec fn rearmed(c: ConnectionTimeout, fd: i32, now: u64) -> ConnectionTimeout {
    if c.fd == fd {
        ConnectionTimeout {
            fd: c.fd,
            state: ConnectionState::ReadingHeaders,
            last_activity: now,
            request_start: now,
        }
    } else {
        c
    }
}

/// The timeout manager: one record per connection descriptor.
#[derive(Debug)]
pub struct TimeoutManager {
    config: TimeoutConfig,
    connections: Vec<ConnectionTimeout>,
}

/// Whether a record list holds a record for `fd`.
pub open spec fn has_fd(s: Seq<ConnectionTimeout>, fd: i32) -> bool {
    exists|i: int| 0 <= i < s.len() && #[trigger] s[i].fd == fd
}

impl TimeoutManager {
    /// The records, in insertion order.
    pub closed spec fn records(&self) -> Seq<ConnectionTimeout> {
        self.connections@
    }

    /// The configured budgets.
    pub closed spec fn cfg(&self) -> TimeoutConfig {
        self.config
    }

    /// A manager with no records.
    pub fn new(config: TimeoutConfig) -> (r: TimeoutManager)
        ensures
            r.records() == Seq::<ConnectionTimeout>::empty(),
            r.cfg() == config,
    {
        TimeoutManager { config, connections: Vec::new() }
    }

    /// Adds a fresh record for `fd` at reading `now`, dropping any stale
    /// record for the same descriptor first: the list keeps one record
    /// per live descriptor.
    pub fn add_connection(&mut self, fd: i32, now: u64)
        ensures
            final(self).records() == old(self).records().filter(|c: ConnectionTimeout| c.fd != fd)
                .push(ConnectionTimeout::spec_new(fd, now)),
            final(self).cfg() == old(self).cfg(),
    {
        self.remove_connection(fd);
        self.connections.push(ConnectionTimeout::new(fd, now));
    }

    /// Removes every record for `fd`.
    pub fn remove_connection(&mut self, fd: i32)
        ensures
            final(self).records() == old(self).records().filter(|c: ConnectionTimeout| c.fd != fd),
            final(self).cfg() == old(self).cfg(),
            !has_fd(final(self).records(), fd),
    {
        let mut out: Vec<ConnectionTimeout> = Vec::new();
        let mut i: usize = 0;
        let ghost orig = self.connections@;
        while i < self.connections.len()
            invariant
                i <= self.connections.len(),
                self.connections@ == orig,
                out@ == orig.take(i as int).filter(|c: ConnectionTimeout| c.fd != fd),
            decreases self.connections.len() - i,
        {
            proof {
                reveal(Seq::filter);
                assert(orig.take(i + 1).drop_last() =~= orig.take(i as int));
                assert(orig.take(i + 1).last() == orig[i as int]);
            }
            let c = self.connections[i];
            if c.fd != fd {
                out.push(c);
            }
            i += 1;
        }
        proof {
            assert(orig.take(orig.len() as int) =~= orig);
            orig.filter_lemma(|c: ConnectionTimeout| c.fd != fd);
        }
        self.connections = out;
    }

    /// Marks activity for `fd` at `now`: every record for `fd` gets the
    /// new stamp, every other record stays.
    pub fn update_activity(&mut self, fd: i32, now: u64)
        ensures
            final(self).records() == old(self).records().map_values(
                |c: ConnectionTimeout| touched(c, fd, now),
            ),
            final(self).cfg() == old(self).cfg(),
    {
        let ghost orig = self.connections@;

        let mut i: usize = 0;
        while i < self.connections.len()
            invariant
                i <= self.connections.len(),
                self.connections@.len() == orig.len(),
                orig == old(self).records(),
                self.config == old(self).cfg(),
                forall|j: int| 0 <= j < i ==> self.connections@[j] == touched(#[trigger] orig[j], fd, now),
                forall|j: int| i <= j < orig.len() ==> self.connections@[j] == #[trigger] orig[j],
            decreases self.connections.len() - i,
        {
            let c = self.connections[i];
            proof {
                assert(c == orig[i as int]);
            }
            if c.fd == fd {
                self.connections.set(i, ConnectionTimeout { last_activity: now, ..c });
            }
            i += 1;
        }
        proof {
            assert(self.connections@ =~= orig.map_values(|c: ConnectionTimeout| touched(c, fd, now)));
        }
    }

    /// Moves `fd` to a new phase, marking activity.
    pub fn set_connection_state(&mut self, fd: i32, state: ConnectionState, now: u64)
        ensures
            final(self).records() == old(self).records().map_values(
                |c: ConnectionTimeout| moved(c, fd, state, now),
            ),
            final(self).cfg() == old(self).cfg(),
    {
        let ghost orig = self.connections@;

        let mut i: usize = 0;
        while i < self.connections.len()
            invariant
                i <= self.connections.len(),
                self.connections@.len() == orig.len(),
                orig == old(self).records(),
                self.config == old(self).cfg(),
                forall|j: int| 0 <= j < i ==> self.connections@[j] == moved(#[trigger] orig[j], fd, state, now),
                forall|j: int| i <= j < orig.len() ==> self.connections@[j] == #[trigger] orig[j],
            decreases self.connections.len() - i,
        {
            let c = self.connections[i];
            proof {
                assert(c == orig[i as int]);
            }
            if c.fd == fd {
                self.connections.set(i, ConnectionTimeout { state, last_activity: now, ..c });
            }
            i += 1;
        }
        proof {
            assert(self.connections@ =~= orig.map_values(|c: ConnectionTimeout| moved(c, fd, state, now)));
        }
    }

    /// Rearms `fd` for its next request.
    pub fn reset_connection_for_new_request(&mut self, fd: i32, now: u64)
        ensures
            final(self).records() == old(self).records().map_values(
                |c: ConnectionTimeout| rearmed(c, fd, now),
            ),
            final(self).cfg() == old(self).cfg(),
    {
        let ghost orig = self.connections@;

        let mut i: usize = 0;
        while i < self.connections.len()
            invariant
                i <= self.connections.len(),
                self.connections@.len() == orig.len(),
                orig == old(self).records(),
                self.config == old(self).cfg(),
                forall|j: int| 0 <= j < i ==> self.connections@[j] == rearmed(#[trigger] orig[j], fd, now),
                forall|j: int| i <= j < orig.len() ==> self.connections@[j] == #[trigger] orig[j],
            decreases self.connections.len() - i,
        {
            let c = self.connections[i];
            proof {
                assert(c == orig[i as int]);
            }
            if c.fd == fd {
                self.connections.set(
                    i,
                    ConnectionTimeout {
                        fd: c.fd,
                        state: ConnectionState::ReadingHeaders,
                        last_activity: now,
                        request_start: now,
                    },
                );
            }
            i += 1;
        }
        proof {
            assert(self.connections@ =~= orig.map_values(|c: ConnectionTimeout| rearmed(c, fd, now)));
        }
    }

    /// The descriptors of the records that have aged out at `now`: a
    /// record expires exactly when its phase budget or the whole-request
    /// budget is spent.
    pub fn check_timeouts(&self, now: u64) -> (r: Vec<i32>)
        ensures
            r@ == expired_fds(self.records(), self.cfg(), now),
    {
        let mut out: Vec<i32> = Vec::new();
        let mut i: usize = 0;
        while i < self.connections.len()
            invariant
                i <= self.connections.len(),
                out@ == expired_fds(self.records().take(i as int), self.cfg(), now),
            decreases self.connections.len() - i,
        {
            let c = self.connections[i];
            let t = match c.state {
                ConnectionState::ReadingHeaders => self.config.read_header_timeout,
                ConnectionState::ReadingBody => self.config.read_body_timeout,
                ConnectionState::Writing => self.config.write_timeout,
                ConnectionState::KeepAlive => self.config.keep_alive_timeout,
            };
            let idle = if now > c.last_activity {
                now - c.last_activity
            } else {
                0
            };
            let total = if now > c.request_start {
                now - c.request_start
            } else {
                0
            };
            proof {
                lemma_expired_fds_snoc(self.records().take(i as int), c, self.cfg(), now);
                assert(self.records().take(i + 1) =~= self.records().take(i as int).push(c));
            }
            if idle > t || total > self.config.request_timeout {
                out.push(c.fd);
            }
            i += 1;
        }
        proof {
            assert(self.records().take(self.records().len() as int) =~= self.records());
        }
        out
    }

    /// The next wake-up budget: the minimum remaining budget across all
    /// records, starting from one minute, floored at 100 ms.
    pub fn next_timeout_check(&self, now: u64) -> (r: u64)
        ensures
            ({
                let m = min_remaining(self.records(), self.cfg(), now, 60000);
                r == if m < 100 {
                    100nat
                } else {
                    m
                }
            }),
    {
        let mut acc: u64 = 60000;
        proof {
            assert(self.records().skip(0) =~= self.records());
        }
        let mut i: usize = 0;
        while i < self.connections.len()
            invariant
                i <= self.connections.len(),
                acc <= 60000,
                min_remaining(self.records(), self.cfg(), now, 60000) == min_remaining(
                    self.records().skip(i as int),
                    self.cfg(),
                    now,
                    acc as nat,
                ),
            decreases self.connections.len() - i,
        {
            proof {
                assert(self.records().skip(i as int).drop_first() =~= self.records().skip(i + 1));
                assert(self.records().skip(i as int)[0] == self.records()[i as int]);
            }
            let c = self.connections[i];
            let t = match c.state {
                ConnectionState::ReadingHeaders => self.config.read_header_timeout,
                ConnectionState::ReadingBody => self.config.read_body_timeout,
                ConnectionState::Writing => self.config.write_timeout,
                ConnectionState::KeepAlive => self.config.keep_alive_timeout,
            };
            let e = if now > c.last_activity {
                now - c.last_activity
            } else {
                0
            };
            if e < t && t - e < acc {
                acc = t - e;
            }
            let re = if now > c.request_start {
                now - c.request_start
            } else {
                0
            };
            if re < self.config.request_timeout && self.config.request_timeout - re < acc {
                acc = self.config.request_timeout - re;
            }
            i += 1;
        }
        proof {
            assert(self.records().skip(self.records().len() as int)
                =~= Seq::<ConnectionTimeout>::empty());
        }
        if acc < 100 {
            100
        } else {
            acc
        }
    }

    /// How many records the manager holds.
    pub fn connection_count(&self) -> (r: usize)
        ensures
            r == self.records().len(),
    {
        self.connections.len()
    }

    /// The configured budgets.
    pub fn config(&self) -> (r: &TimeoutConfig)
        ensures
            *r == self.cfg(),
    {
        &self.config
    }
}

impl ConnectionTimeout {
    /// The record `new` builds.
    pub open spec fn spec_new(fd: i32, now: u64) -> ConnectionTimeout {
        ConnectionTimeout {
            fd,
            state: ConnectionState::ReadingHeaders,
            last_activity: now,
            request_start: now,
        }
    }
}

/// Timeout determinism for the header phase: a connection that went
/// silent right after it was accepted expires exactly when the
/// header-read budget is spent — never earlier, never later — provided
/// the whole-request budget is no shorter.
pub proof fn lemma_header_timeout_deterministic(cfg: TimeoutConfig, fd: i32, t0: u64, now: u64)
    requires
        cfg.request_timeout >= cfg.read_header_timeout,
    ensures
        is_expired(cfg, ConnectionTimeout::spec_new(fd, t0), now) <==> elapsed(now, t0)
            > cfg.read_header_timeout,
{
}

/// No descriptor stays behind: removing a connection leaves no record of
/// it, and a manager whose every added descriptor was removed again holds
/// no records at all (its count is the number of records, so a zero count
/// is exactly emptiness).
pub proof fn lemma_remove_leaves_no_record(s: Seq<ConnectionTimeout>, fd: i32)
    ensures
        !has_fd(s.filter(|c: ConnectionTimeout| c.fd != fd), fd),
        forall|g: i32| g != fd ==> (has_fd(s.filter(|c: ConnectionTimeout| c.fd != fd), g)
            <==> has_fd(s, g)),
{
    let fin = s.filter(|c: ConnectionTimeout| c.fd != fd);
    s.filter_lemma(|c: ConnectionTimeout| c.fd != fd);
    assert forall|g: i32| g != fd implies (has_fd(fin, g) <==> has_fd(s, g)) by {
        lemma_filter_keeps_others(s, fd, g);
    }
}

/// Filtering out one descriptor keeps every other descriptor's presence.
proof fn lemma_filter_keeps_others(s: Seq<ConnectionTimeout>, fd: i32, g: i32)
    requires
        g != fd,
    ensures
        has_fd(s.filter(|c: ConnectionTimeout| c.fd != fd), g) <==> has_fd(s, g),
    decreases s.len(),
{
    reveal(Seq::filter);
    if s.len() == 0 {
    } else {
        lemma_filter_keeps_others(s.drop_last(), fd, g);
        let fin = s.filter(|c: ConnectionTimeout| c.fd != fd);
        let finp = s.drop_last().filter(|c: ConnectionTimeout| c.fd != fd);
        if has_fd(s, g) {
            let i = choose|i: int| 0 <= i < s.len() && #[trigger] s[i].fd == g;
            if i == s.len() - 1 {
                assert(fin.last().fd == g);
                assert(has_fd(fin, g));
            } else {
                assert(has_fd(s.drop_last(), g)) by {
                    assert(s.drop_last()[i].fd == g);
                }
                let j = choose|j: int| 0 <= j < finp.len() && #[trigger] finp[j].fd == g;
                if s.last().fd != fd {
                    assert(fin[j] == finp[j]);
                } else {
                    assert(fin == finp);
                }
                assert(has_fd(fin, g));
            }
        }
        if has_fd(fin, g) {
            let i = choose|i: int| 0 <= i < fin.len() && #[trigger] fin[i].fd == g;
            if s.last().fd != fd {
                if i == fin.len() - 1 {
                    assert(s.last().fd == g);
                    assert(has_fd(s, g));
                } else {
                    assert(finp[i].fd == g);
                    assert(has_fd(s.drop_last(), g));
                    let j = choose|j: int| 0 <= j < s.drop_last().len() && #[trigger] s.drop_last()[j].fd == g;
                    assert(s[j].fd == g);
                }
            } else {
                assert(fin == finp);
                assert(has_fd(s.drop_last(), g));
                let j = choose|j: int| 0 <= j < s.drop_last().len() && #[trigger] s.drop_last()[j].fd == g;
                assert(s[j].fd == g);
            }
        }
    }
}

} // verus!
