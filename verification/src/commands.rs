//! The decisions behind the interface's commands and the scheduler.
use vstd::prelude::*;
use crate::text::{trim, chars_of, trim_chars, is_blank, string_from_chars, append_chars};
use crate::models::{
    AppConfig, PrinterConfig, DirectConnectRequest, HistoryEntry, SyncStatus, UtcTimestamp,
    string_of,
};

verus! {

// ---------------------------------------------------------------------------
// The snapshot
// ---------------------------------------------------------------------------

/// The number of history entries the interface shows.
pub const SNAPSHOT_HISTORY_LIMIT: usize = 100;

/// The history as the interface shows it: newest first, at most 100 entries.
pub open spec fn newest_first(history: Seq<HistoryEntry>) -> Seq<HistoryEntry> {
    let r = history.reverse();
    if r.len() > SNAPSHOT_HISTORY_LIMIT {
        r.take(SNAPSHOT_HISTORY_LIMIT as int)
    } else {
        r
    }
}

/// The history for the snapshot: reversed, then cut to 100 entries.
pub fn snapshot_history(history: Vec<HistoryEntry>) -> (r: Vec<HistoryEntry>)
    ensures
        r@ == newest_first(history@),
{
    let mut rest = history;
    let mut r: Vec<HistoryEntry> = Vec::new();
    let ghost all = rest@;
    while r.len() < SNAPSHOT_HISTORY_LIMIT && rest.len() > 0
        invariant
            r@.len() <= SNAPSHOT_HISTORY_LIMIT,
            rest@ == all.take(all.len() - r@.len()),
            r@ == all.reverse().take(r@.len() as int),
            r@.len() <= all.len(),
        decreases rest@.len(),
    {
        let e = rest.pop().unwrap();
        let ghost k = r@.len();
        r.push(e);
        assert(rest@ =~= all.take(all.len() - r@.len()));
        assert(r@ =~= all.reverse().take(r@.len() as int));
    }
    assert(r@ =~= newest_first(all));
    r
}

// ---------------------------------------------------------------------------
// Pairing by address
// ---------------------------------------------------------------------------

/// The printer a direct connection request pairs with: the trimmed host as
/// address and serial number, the given name unless blank (else
/// `Snapmaker U1`), the given port (else 7125).
pub open spec fn direct_printer_spec(request: DirectConnectRequest, p: PrinterConfig) -> bool {
    let host = trim(request.host@);
    &&& p.id@ == "http-"@ + host
    &&& p.name@ == match request.name {
        Some(n) => if trim(n@).len() > 0 {
            n@
        } else {
            "Snapmaker U1"@
        },
        None => "Snapmaker U1"@,
    }
    &&& p.host@ == host
    &&& p.http_port == match request.http_port {
        Some(port) => port,
        None => 7125,
    }
    &&& p.sn@ == host
    &&& p.machine_type@ == "Snapmaker U1"@
    &&& p.paired
}

/// The printer configuration for a direct connection request.
pub fn printer_from_request(request: DirectConnectRequest) -> (r: PrinterConfig)
    ensures
        direct_printer_spec(request, r),
{
    let host = trim_chars(chars_of(request.host.as_str()).as_slice());
    let mut id = chars_of("http-");
    append_chars(&mut id, host.as_slice());
    let name = match request.name {
        Some(n) => if is_blank(chars_of(n.as_str()).as_slice()) {
            string_of("Snapmaker U1")
        } else {
            n
        },
        None => string_of("Snapmaker U1"),
    };
    PrinterConfig {
        id: string_from_chars(id.as_slice()),
        name,
        host: string_from_chars(host.as_slice()),
        http_port: match request.http_port {
            Some(port) => port,
            None => 7125,
        },
        sn: string_from_chars(host.as_slice()),
        machine_type: string_of("Snapmaker U1"),
        paired: true,
    }
}

/// Why there is no printer to check.
#[derive(Clone, Copy, Debug, PartialEq, Eq, Structural)]
pub enum PrinterError {
    NotConfigured,
}

impl PrinterError {
    pub fn message(&self) -> (r: String)
        ensures
            r@ == "no printer is configured"@,
    {
        string_of("no printer is configured")
    }
}

/// The configured printer, to check that it answers.
pub fn configured_printer(config: &AppConfig) -> (r: Result<PrinterConfig, PrinterError>)
    ensures
        match r {
            Ok(p) => config.printer == Some(p),
            Err(_) => config.printer is None,
        },
{
    match &config.printer {
        Some(p) => Ok(p.duplicate()),
        None => Err(PrinterError::NotConfigured),
    }
}

/// Forgets the paired printer.
pub fn forget_printer(config: &mut AppConfig)
    ensures
        final(config).printer is None,
        *final(config) == (AppConfig { printer: None, ..*old(config) }),
{
    config.printer = None;
}

// ---------------------------------------------------------------------------
// Saving the settings
// ---------------------------------------------------------------------------

/// The smallest and largest interval values that are saved.
pub const MIN_INTERVAL: u64 = 1;

pub const MAX_INTERVAL: u64 = 8760;

/// `value.clamp(1, 8760)`.
pub open spec fn clamp_interval(value: u64) -> u64 {
    if value < MIN_INTERVAL {
        MIN_INTERVAL
    } else if value > MAX_INTERVAL {
        MAX_INTERVAL
    } else {
        value
    }
}

/// The settings as they are saved: the interval clamped to 1..=8760, version 0
/// read as 1, a non-blank destination trimmed.
pub open spec fn normalized_config_spec(c: AppConfig, r: AppConfig) -> bool {
    &&& r.version == (if c.version == 0 { 1 } else { c.version })
    &&& r.interval_value == clamp_interval(c.interval_value)
    &&& r.destination@ == (if trim(c.destination@).len() > 0 {
        trim(c.destination@)
    } else {
        c.destination@
    })
    &&& r.printer == c.printer
    &&& r.schedule_enabled == c.schedule_enabled
    &&& r.interval_unit == c.interval_unit
    &&& r.download_thumbnails == c.download_thumbnails
    &&& r.autostart == c.autostart
    &&& r.run_in_background == c.run_in_background
}

/// The settings to save.
pub fn normalize_config(config: AppConfig) -> (r: AppConfig)
    ensures
        normalized_config_spec(config, r),
        MIN_INTERVAL <= r.interval_value <= MAX_INTERVAL,
        r.version >= 1,
{
    let mut config = config;
    config.interval_value = if config.interval_value < MIN_INTERVAL {
        MIN_INTERVAL
    } else if config.interval_value > MAX_INTERVAL {
        MAX_INTERVAL
    } else {
        config.interval_value
    };
    if config.version == 0 {
        config.version = 1;
    }
    let dest = chars_of(config.destination.as_str());
    let trimmed = trim_chars(dest.as_slice());
    if trimmed.len() > 0 {
        config.destination = string_from_chars(trimmed.as_slice());
    }
    config
}

/// Saving settings that were saved before changes nothing: normalizing twice
/// gives what normalizing once gives.
pub proof fn law_normalize_is_idempotent(c: AppConfig, once: AppConfig, twice: AppConfig)
    requires
        normalized_config_spec(c, once),
        normalized_config_spec(once, twice),
    ensures
        twice.version == once.version,
        twice.interval_value == once.interval_value,
        twice.destination@ == once.destination@,
        twice.printer == once.printer,
        twice.schedule_enabled == once.schedule_enabled,
        twice.interval_unit == once.interval_unit,
        twice.download_thumbnails == once.download_thumbnails,
        twice.autostart == once.autostart,
        twice.run_in_background == once.run_in_background,
{
    crate::text::lemma_trim_is_trimmed(c.destination@);
}

/// What to do with start at sign-in.
#[derive(Clone, Copy, Debug, PartialEq, Eq, Structural)]
pub enum AutostartChange {
    Enable,
    Disable,
    Keep,
}

/// Enables start at sign-in when it is wanted and off, disables it when it is
/// on and not wanted.
pub fn autostart_change(wanted: bool, enabled: bool) -> (r: AutostartChange)
    ensures
        r == (if wanted && !enabled {
            AutostartChange::Enable
        } else if !wanted && enabled {
            AutostartChange::Disable
        } else {
            AutostartChange::Keep
        }),
{
    if wanted && !enabled {
        AutostartChange::Enable
    } else if !wanted && enabled {
        AutostartChange::Disable
    } else {
        AutostartChange::Keep
    }
}

// ---------------------------------------------------------------------------
// Pausing
// ---------------------------------------------------------------------------

/// Why a pause is refused.
#[derive(Clone, Copy, Debug, PartialEq, Eq, Structural)]
pub enum PauseError {
    NotRunning,
}

impl PauseError {
    pub fn message(&self) -> (r: String)
        ensures
            r@ == "no sync is currently running"@,
    {
        string_of("no sync is currently running")
    }
}

/// Asks the running sync to stop before its next file: refused when no sync
/// runs; otherwise the phase becomes `stopping` (the caller raises the stop
/// flag).
pub fn request_pause(status: &mut SyncStatus) -> (r: Result<(), PauseError>)
    ensures
        r is Err <==> !old(status).running,
        r is Err ==> *final(status) == *old(status),
        r is Ok ==> final(status).phase@ == "stopping"@ && final(status).running && (SyncStatus {
            phase: old(status).phase,
            ..*final(status)
        }) == *old(status),
{
    if !status.running {
        return Err(PauseError::NotRunning);
    }
    status.phase = string_of("stopping");
    Ok(())
}

// ---------------------------------------------------------------------------
// The scheduler
// ---------------------------------------------------------------------------

/// `a` is not later than `b`.
pub open spec fn not_later(a: UtcTimestamp, b: UtcTimestamp) -> bool {
    a.seconds < b.seconds || (a.seconds == b.seconds && a.nanos <= b.nanos)
}

/// The schedule can run: it is enabled, a printer is set and a destination is
/// chosen.
pub open spec fn schedule_ready(config: AppConfig) -> bool {
    config.schedule_enabled && config.printer is Some && trim(config.destination@).len() > 0
}

/// A scheduled sync is due: none is running and the next sync time, if any,
/// has come.
pub open spec fn sync_due(status: SyncStatus, now: UtcTimestamp) -> bool {
    !status.running && match status.next_sync {
        Some(next) => not_later(next, now),
        None => true,
    }
}

/// Whether the scheduler starts a sync now.
pub fn scheduled_sync_due(config: &AppConfig, status: &SyncStatus, now: UtcTimestamp) -> (r: bool)
    ensures
        r == (schedule_ready(*config) && sync_due(*status, now)),
{
    if !config.schedule_enabled || config.printer.is_none() || is_blank(
        chars_of(config.destination.as_str()).as_slice(),
    ) {
        return false;
    }
    if status.running {
        return false;
    }
    match status.next_sync {
        Some(next) => next.seconds < now.seconds || (next.seconds == now.seconds && next.nanos
            <= now.nanos),
        None => true,
    }
}

/// A scheduled sync never starts while one is running.
pub proof fn law_no_scheduled_sync_while_running(config: AppConfig, status: SyncStatus, now: UtcTimestamp)
    requires
        status.running,
    ensures
        !(schedule_ready(config) && sync_due(status, now)),
{
}

/// The status when the scheduler starts: idle, with the next sync as the
/// schedule says.
pub fn scheduler_start(status: &mut SyncStatus, config: &AppConfig, now: UtcTimestamp)
    requires
        config.next_sync_defined(now),
    ensures
        final(status).phase@ == "idle"@,
        final(status).next_sync == config.next_sync_spec(now),
        final(status).running == old(status).running,
        final(status).last_sync == old(status).last_sync,
        final(status).progress_percent == old(status).progress_percent,
        final(status).current_file == old(status).current_file,
        final(status).downloaded == old(status).downloaded,
        final(status).skipped == old(status).skipped,
        final(status).failed == old(status).failed,
        final(status).last_error == old(status).last_error,
{
    status.phase = string_of("idle");
    status.next_sync = config.next_sync_from(now);
}

} // verus!
