//! Whether the storage server answers: it counts as gone after two failed probes in a row.
use vstd::prelude::*;

verus! {

/// Seconds between two probes.
pub const PROBE_INTERVAL_SECS: u64 = 30;

/// Failed probes in a row after which the server counts as gone.
pub const FAILURE_THRESHOLD: u32 = 2;

/// What a probe changed.
#[derive(Clone, Copy, Debug, PartialEq, Eq, Structural)]
pub enum HealthChange {
    Unchanged,
    /// The server answers again.
    CameBack,
    /// The server counts as gone from now on.
    WentAway,
}

/// Health of one share of the storage server.
pub struct NasHealth {
    domain: String,
    nas_root: String,
    connected: bool,
    consecutive_failures: u32,
}

/// Number of failures in a row after another probe; the counter stops at its largest value.
pub open spec fn next_failures(before: nat, ok: bool) -> nat {
    if ok {
        0
    } else if before < u32::MAX {
        before + 1
    } else {
        before
    }
}

/// What the counter shows after the probes with these results.
pub open spec fn failures_after(probes: Seq<bool>) -> nat
    decreases probes.len(),
{
    if probes.len() == 0 {
        0
    } else {
        next_failures(failures_after(probes.drop_last()), probes.last())
    }
}

impl NasHealth {
    pub closed spec fn domain_name(&self) -> Seq<char> {
        self.domain@
    }

    pub closed spec fn root(&self) -> Seq<char> {
        self.nas_root@
    }

    pub closed spec fn failures(&self) -> nat {
        self.consecutive_failures as nat
    }

    pub closed spec fn online(&self) -> bool {
        self.connected
    }

    /// The share counts as reachable until enough probes in a row have failed.
    pub open spec fn wf(&self) -> bool {
        self.online() == (self.failures() < FAILURE_THRESHOLD)
    }

    /// A share that counts as reachable.
    pub fn new(domain: String, nas_root: String) -> (h: NasHealth)
        ensures
            h.wf(),
            h.domain_name() == domain@,
            h.root() == nas_root@,
            h.failures() == 0,
            h.online(),
    {
        NasHealth { domain, nas_root, connected: true, consecutive_failures: 0 }
    }

    /// Whether the share counts as reachable.
    pub fn is_online(&self) -> (r: bool)
        requires
            self.wf(),
        ensures
            r == self.online(),
            r == (self.failures() < FAILURE_THRESHOLD),
    {
        self.connected
    }

    /// The directory that a probe looks at.
    pub fn probe_target(&self) -> (p: &String)
        ensures
            p@ == self.root(),
    {
        &self.nas_root
    }

    /// Takes note of the result of a probe.
    pub fn on_probe(&mut self, ok: bool) -> (change: HealthChange)
        requires
            old(self).wf(),
        ensures
            final(self).wf(),
            final(self).domain_name() == old(self).domain_name(),
            final(self).root() == old(self).root(),
            final(self).failures() == next_failures(old(self).failures(), ok),
            final(self).online() == (final(self).failures() < FAILURE_THRESHOLD),
            change == if old(self).online() == final(self).online() {
                HealthChange::Unchanged
            } else if ok {
                HealthChange::CameBack
            } else {
                HealthChange::WentAway
            },
    {
        if ok {
            self.consecutive_failures = 0;
            let was_offline = !self.connected;
            self.connected = true;
            if was_offline {
                HealthChange::CameBack
            } else {
                HealthChange::Unchanged
            }
        } else {
            if self.consecutive_failures < u32::MAX {
                self.consecutive_failures = self.consecutive_failures + 1;
            }
            if self.consecutive_failures >= FAILURE_THRESHOLD {
                let was_online = self.connected;
                self.connected = false;
                if was_online {
                    return HealthChange::WentAway;
                }
            }
            HealthChange::Unchanged
        }
    }
}

/// After any history of probes the share counts as gone exactly if the last two have failed, and one
/// more result is counted as `NasHealth::on_probe` counts it.
pub proof fn law_offline_after_two_failures(probes: Seq<bool>, h: NasHealth, ok: bool)
    requires
        h.wf(),
        h.failures() == failures_after(probes),
    ensures
        !h.online() <==> probes.len() >= 2 && !probes.last() && !probes[probes.len() - 2],
        failures_after(probes.push(ok)) == next_failures(h.failures(), ok),
{
    reveal_with_fuel(failures_after, 3);
    if probes.len() >= 2 {
        assert(probes.drop_last().last() == probes[probes.len() - 2]);
    }
    assert(probes.push(ok).drop_last() =~= probes);
}

/// One answer brings a share back, and two failures in a row take it away; each of these is told
/// when it happens.
pub proof fn law_changes_of_health_are_told(h: &mut NasHealth, ok: bool, c: HealthChange)
    requires
        old(h).wf(),
        call_ensures(NasHealth::on_probe, (h, ok), c),
    ensures
        ok ==> final(h).online() && final(h).failures() == 0,
        !ok && old(h).failures() >= 1 ==> !final(h).online(),
        !ok && old(h).failures() == 0 ==> final(h).online() && final(h).failures() == 1,
        c is CameBack <==> ok && !old(h).online(),
        c is WentAway <==> !ok && old(h).online() && old(h).failures() == 1,
        final(h).domain_name() == old(h).domain_name(),
{
}

} // verus!
