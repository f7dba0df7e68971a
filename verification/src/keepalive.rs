//! The schedule that keeps the proxy server's address in the ipset: once a
//! second a tick arrives, and on every `timeout`-th tick (the first, then
//! each `timeout` ticks later) the entry is added again with a lifetime of
//! `timeout + 5` seconds.

use vstd::prelude::*;

verus! {

/// Whether the entry is refreshed on tick number `tick` (counting from 1).
pub open spec fn refresh_due(timeout: u64, tick: int) -> bool {
    tick % (timeout as int) == 1
}

/// The lifetime, in seconds, given to a refreshed entry: the timeout
/// truncated to 32 bits, plus five.
pub open spec fn refresh_ttl(timeout: u64) -> int {
    (timeout as int) % 0x1_0000_0000 + 5
}

/// The state of the schedule: the timeout and the ticks seen so far.
pub struct IpsetKeepalive {
    timeout: u64,
    ticks: u64,
}

impl IpsetKeepalive {
    /// The timeout in seconds.
    pub closed spec fn spec_timeout(&self) -> u64 {
        self.timeout
    }

    /// The ticks seen so far.
    pub closed spec fn spec_ticks(&self) -> u64 {
        self.ticks
    }

    /// Starts the schedule; a timeout of zero means the entry is never
    /// refreshed, and no schedule runs.
    pub fn start(timeout: u64) -> (keepalive: Option<IpsetKeepalive>)
        ensures
            keepalive is None <==> timeout == 0,
            keepalive matches Some(k) ==> k.spec_timeout() == timeout && k.spec_ticks() == 0,
    {
        if timeout == 0 {
            None
        } else {
            Some(IpsetKeepalive { timeout, ticks: 0 })
        }
    }

    /// The ticks seen so far.
    pub fn ticks(&self) -> (ticks: u64)
        ensures
            ticks == self.spec_ticks(),
    {
        self.ticks
    }

    /// The lifetime that a refresh gives, if it fits in 32 bits.
    pub fn ttl(&self) -> (ttl: Option<u32>)
        ensures
            ttl matches Some(t) ==> t == refresh_ttl(self.spec_timeout()),
            ttl is None <==> refresh_ttl(self.spec_timeout()) > u32::MAX,
    {
        let low = (self.timeout % 0x1_0000_0000) as u32;
        if low > u32::MAX - 5 {
            None
        } else {
            Some(low + 5)
        }
    }

    /// One tick of the clock: returns the lifetime to add the entry with
    /// when a refresh is due on this tick, `None` otherwise.
    pub fn tick(&mut self) -> (refresh: Option<u32>)
        requires
            old(self).spec_timeout() > 0,
            old(self).spec_ticks() < u64::MAX,
            refresh_ttl(old(self).spec_timeout()) <= u32::MAX,
        ensures
            final(self).spec_timeout() == old(self).spec_timeout(),
            final(self).spec_ticks() == old(self).spec_ticks() + 1,
            refresh is Some <==> refresh_due(old(self).spec_timeout(), final(self).spec_ticks() as int),
            refresh matches Some(t) ==> t == refresh_ttl(old(self).spec_timeout()),
    {
        self.ticks = self.ticks + 1;
        if self.ticks % self.timeout != 1 {
            return None;
        }
        let low = (self.timeout % 0x1_0000_0000) as u32;
        Some(low + 5)
    }
}

/// Refreshes recur every `timeout` ticks: a tick is due exactly when the
/// tick `timeout` later is.
pub proof fn law_refresh_period(timeout: u64, tick: int)
    requires
        timeout > 0,
        tick >= 0,
    ensures
        refresh_due(timeout, tick) == refresh_due(timeout, tick + timeout),
{
    let t = timeout as int;
    assert((tick + t) % t == tick % t) by (nonlinear_arith)
        requires
            t > 0,
            tick >= 0,
    {
        vstd::arithmetic::div_mod::lemma_mod_add_multiples_vanish(tick, t);
    }
}

/// The first tick refreshes the entry whenever the timeout is above one
/// second; with a timeout of one second no tick ever does.
pub proof fn law_first_tick_and_unit_timeout(timeout: u64, tick: int)
    requires
        timeout > 0,
    ensures
        timeout > 1 ==> refresh_due(timeout, 1),
        timeout == 1 ==> !refresh_due(timeout, tick),
{
    if timeout > 1 {
        vstd::arithmetic::div_mod::lemma_small_mod(1, timeout as nat);
    }
}

/// The lifetime of a refreshed entry is the timeout plus five seconds, with
/// the timeout taken modulo 2^32: it lies in [5, 2^32 + 5), differs from
/// the timeout by five plus a multiple of 2^32, and for a timeout that fits
/// in 32 bits it is exactly the timeout plus five, so it outlasts the
/// `timeout` ticks until the next refresh.
pub proof fn law_refresh_ttl_outlasts_period(timeout: u64)
    ensures
        5 <= refresh_ttl(timeout) < 0x1_0000_0000 + 5,
        (timeout as int - (refresh_ttl(timeout) - 5)) % 0x1_0000_0000 == 0,
        timeout < 0x1_0000_0000 ==> refresh_ttl(timeout) == timeout + 5,
        timeout < 0x1_0000_0000 ==> refresh_ttl(timeout) > timeout,
{
    let t = timeout as int;
    let m = 0x1_0000_0000int;
    vstd::arithmetic::div_mod::lemma_fundamental_div_mod(t, m);
    vstd::arithmetic::div_mod::lemma_mod_bound(t, m);
    assert(t - t % m == m * (t / m));
    vstd::arithmetic::div_mod::lemma_mod_multiples_basic(t / m, m);
    vstd::arithmetic::mul::lemma_mul_is_commutative(m, t / m);
    if t < m {
        vstd::arithmetic::div_mod::lemma_small_mod(t as nat, m as nat);
    }
}

} // verus!
