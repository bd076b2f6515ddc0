//! The process-level collector built on the `sysinfo` crate: it refreshes
//! the process table no more often than every 100 ms, since CPU usage is
//! measured between two refreshes and is unreliable over shorter spans.
use vstd::prelude::*;

verus! {

#[verifier::external_type_specification]
#[verifier::external_body]
pub struct ExSystem(::sysinfo::System);

#[verifier::external_type_specification]
#[verifier::external_body]
pub struct ExInstant(std::time::Instant);

/// Calls `sysinfo::System::new_all`. Trusted: nothing is claimed of the
/// snapshot, which reflects the machine.
#[verifier::external_body]
fn new_system() -> ::sysinfo::System {
    ::sysinfo::System::new_all()
}

/// Calls `System::refresh_processes_specifics` for every process, dropping
/// dead ones, with every kind of process data. Trusted: nothing is claimed.
#[verifier::external_body]
fn refresh_all_processes(sys: &mut ::sysinfo::System) {
    sys.refresh_processes_specifics(
        ::sysinfo::ProcessesToUpdate::All,
        true,
        ::sysinfo::ProcessRefreshKind::everything(),
    );
}

/// How many CPUs a `sysinfo` snapshot lists (`System::cpus().len()`).
pub uninterp spec fn system_cpu_count(sys: ::sysinfo::System) -> usize;

/// The total memory, in bytes, that a `sysinfo` snapshot holds
/// (`System::total_memory`).
pub uninterp spec fn system_total_memory(sys: ::sysinfo::System) -> u64;

/// The used memory, in bytes, that a `sysinfo` snapshot holds
/// (`System::used_memory`).
pub uninterp spec fn system_used_memory(sys: ::sysinfo::System) -> u64;

/// What `Instant::duration_since` gives for two instants.
pub uninterp spec fn instant_duration_since(
    now: std::time::Instant,
    earlier: std::time::Instant,
) -> core::time::Duration;

/// What `Duration::as_nanos` gives for a duration.
pub uninterp spec fn duration_as_nanos(d: core::time::Duration) -> u128;

/// Calls `System::cpus` and counts them. Trusted: the count is
/// `system_cpu_count` of the snapshot, which only reads the CPU list the
/// snapshot stores.
#[verifier::external_body]
fn count_cpus(sys: &::sysinfo::System) -> (n: usize)
    ensures
        n == system_cpu_count(*sys),
{
    sys.cpus().len()
}

/// Calls `System::refresh_memory_specifics` with every kind of memory data.
/// Trusted: nothing is claimed.
#[verifier::external_body]
fn refresh_memory(sys: &mut ::sysinfo::System) {
    sys.refresh_memory_specifics(::sysinfo::MemoryRefreshKind::everything());
}

/// Calls `System::total_memory`, in bytes. Trusted: the figure is
/// `system_total_memory` of the snapshot, which only reads a stored field.
#[verifier::external_body]
fn total_memory(sys: &::sysinfo::System) -> (n: u64)
    ensures
        n == system_total_memory(*sys),
{
    sys.total_memory()
}

/// Calls `System::used_memory`, in bytes. Trusted: the figure is
/// `system_used_memory` of the snapshot, which only reads a stored field.
#[verifier::external_body]
fn used_memory(sys: &::sysinfo::System) -> (n: u64)
    ensures
        n == system_used_memory(*sys),
{
    sys.used_memory()
}

/// Calls `Instant::now`. Trusted: nothing is claimed.
#[verifier::external_body]
fn instant_now() -> std::time::Instant {
    std::time::Instant::now()
}

/// Calls `Instant::duration_since`. Trusted: the result is
/// `instant_duration_since` of the two instants, and, as std documents it
/// (the time elapsed from `earlier` to `now`), an instant is no time at all
/// after itself: zero nanoseconds.
#[verifier::external_body]
fn duration_since(now: &std::time::Instant, earlier: &std::time::Instant) -> (d:
    core::time::Duration)
    ensures
        d == instant_duration_since(*now, *earlier),
        *now == *earlier ==> duration_as_nanos(d) == 0,
{
    now.duration_since(*earlier)
}

/// Calls `Duration::as_nanos`. Trusted: the result is `duration_as_nanos`
/// of the duration.
#[verifier::external_body]
fn duration_nanos(d: &core::time::Duration) -> (n: u128)
    ensures
        n == duration_as_nanos(*d),
{
    d.as_nanos()
}

/// The shortest span between two process refreshes, in nanoseconds.
pub const MIN_REFRESH_INTERVAL_NANOS: u128 = 100_000_000;

/// Whether the process table is refreshed now: always before the first
/// refresh, otherwise once at least 100 ms have passed since the last one.
pub fn refresh_due(elapsed_nanos: Option<u128>) -> (b: bool)
    ensures
        b == match elapsed_nanos {
            None => true,
            Some(e) => e >= MIN_REFRESH_INTERVAL_NANOS,
        },
{
    match elapsed_nanos {
        None => true,
        Some(e) => e >= MIN_REFRESH_INTERVAL_NANOS,
    }
}

/// Nanoseconds from `earlier` to `now`.
pub open spec fn nanos_since(now: std::time::Instant, earlier: std::time::Instant) -> u128 {
    duration_as_nanos(instant_duration_since(now, earlier))
}

/// How the time of the last process-table read may move in one call: not
/// at all, or to a new reading taken at least 100 ms after the previous one
/// (any reading if there was none).
pub open spec fn refresh_step(
    before: Option<std::time::Instant>,
    after: Option<std::time::Instant>,
) -> bool {
    ||| after == before
    ||| (after matches Some(t) && (before matches Some(l) ==> nanos_since(t, l)
        >= MIN_REFRESH_INTERVAL_NANOS))
}

/// Memory totals of the machine, in bytes.
#[derive(Debug, Clone, Copy, PartialEq, Eq, Structural)]
pub struct SystemInfo {
    pub total_memory_bytes: u64,
    pub used_memory_bytes: u64,
}

/// The process-level collector.
pub struct SysinfoCollector {
    sys: ::sysinfo::System,
    last_refresh_time: Option<std::time::Instant>,
    cpu_count: usize,
}

impl SysinfoCollector {
    /// The number of CPUs seen when the collector was made.
    pub closed spec fn spec_cpu_count(&self) -> usize {
        self.cpu_count
    }

    /// The snapshot of the machine the collector holds.
    pub closed spec fn snapshot(&self) -> ::sysinfo::System {
        self.sys
    }

    /// A refresh has happened.
    pub closed spec fn refreshed(&self) -> bool {
        self.last_refresh_time is Some
    }

    /// When the process table was last read, if ever.
    pub closed spec fn last_refresh(&self) -> Option<std::time::Instant> {
        self.last_refresh_time
    }

    /// A collector over a fresh snapshot of the whole machine, with the
    /// process table refreshed once so that CPU usage has a baseline.
    pub fn new() -> (c: Self)
        ensures
            c.refreshed(),
            c.spec_cpu_count() == system_cpu_count(c.snapshot()),
    {
        let mut sys = new_system();
        refresh_all_processes(&mut sys);
        let cpu_count = count_cpus(&sys);
        SysinfoCollector { sys, last_refresh_time: Some(instant_now()), cpu_count }
    }

    /// A refresh is due at clock reading `now`: there was none yet, or the
    /// last one is at least 100 ms before `now`.
    pub open spec fn refresh_due_at(&self, now: std::time::Instant) -> bool {
        match self.last_refresh() {
            None => true,
            Some(l) => nanos_since(now, l) >= MIN_REFRESH_INTERVAL_NANOS,
        }
    }

    /// `after` is what offering a refresh at clock reading `now` makes of
    /// `before`: if one is due, the process table is read again and `now`
    /// becomes the last refresh; otherwise nothing changes.
    pub open spec fn offered_refresh(before: Self, after: Self, now: std::time::Instant) -> bool {
        &&& after.spec_cpu_count() == before.spec_cpu_count()
        &&& before.refresh_due_at(now) ==> after.last_refresh() == Some(now)
        &&& !before.refresh_due_at(now) ==> after.last_refresh() == before.last_refresh()
            && after.snapshot() == before.snapshot()
    }

    /// Refreshes the process table as of clock reading `now`, if a refresh
    /// is due then (see `refresh_due_at`).
    pub fn refresh_at(&mut self, now: std::time::Instant)
        ensures
            Self::offered_refresh(*old(self), *final(self), now),
            final(self).refreshed(),
            refresh_step(old(self).last_refresh(), final(self).last_refresh()),
            final(self).last_refresh() == old(self).last_refresh() ==> final(self).snapshot()
                == old(self).snapshot(),
    {
        let elapsed = match &self.last_refresh_time {
            Some(last) => Some(duration_nanos(&duration_since(&now, last))),
            None => None,
        };
        if !refresh_due(elapsed) {
            return;
        }
        refresh_all_processes(&mut self.sys);
        self.last_refresh_time = Some(now);
    }

    /// Refreshes the process table, unless the last refresh was less than
    /// 100 ms ago (then nothing changes): `refresh_at` the current time.
    pub fn refresh(&mut self)
        ensures
            final(self).spec_cpu_count() == old(self).spec_cpu_count(),
            final(self).refreshed(),
            refresh_step(old(self).last_refresh(), final(self).last_refresh()),
            final(self).last_refresh() == old(self).last_refresh() ==> final(self).snapshot()
                == old(self).snapshot(),
            exists|now: std::time::Instant| Self::offered_refresh(*old(self), *final(self), now),
    {
        let now = instant_now();
        self.refresh_at(now);
    }

    /// The number of CPUs, by which per-process CPU usage is divided.
    pub fn cpu_count(&self) -> (n: usize)
        ensures
            n == self.spec_cpu_count(),
    {
        self.cpu_count
    }

    /// The snapshot, for reading the process table.
    pub fn system(&self) -> (r: &::sysinfo::System)
        ensures
            *r == self.snapshot(),
    {
        &self.sys
    }

    /// Refreshes the process table (as `refresh` does) and the memory
    /// figures, and reports the memory figures.
    pub fn get_system_info(&mut self) -> (info: SystemInfo)
        ensures
            final(self).spec_cpu_count() == old(self).spec_cpu_count(),
            final(self).refreshed(),
            refresh_step(old(self).last_refresh(), final(self).last_refresh()),
            info.total_memory_bytes == system_total_memory(final(self).snapshot()),
            info.used_memory_bytes == system_used_memory(final(self).snapshot()),
            exists|now: std::time::Instant|
                (old(self).refresh_due_at(now) ==> final(self).last_refresh() == Some(now)) && (
                !old(self).refresh_due_at(now) ==> final(self).last_refresh() == old(
                    self,
                ).last_refresh()),
    {
        self.refresh();
        refresh_memory(&mut self.sys);
        SystemInfo {
            total_memory_bytes: total_memory(&self.sys),
            used_memory_bytes: used_memory(&self.sys),
        }
    }
}

} // verus!
