//! The data the application works with: configuration, printers, timelapses,
//! history and the status of a sync.
use vstd::prelude::*;
use crate::text::{
    decimal, signed_decimal, push_decimal, push_signed_decimal, chars_of, append_str, string_from_chars,
    lemma_decimal_digits, lemma_decimal_injective, lemma_signed_decimal_injective,
};

verus! {

/// A `str` copied into a new `String`.
pub fn string_of(s: &str) -> (r: String)
    ensures
        r@ == s@,
{
    s.to_owned()
}

/// An `Option<String>` copied.
pub fn copy_opt_string(s: &Option<String>) -> (r: Option<String>)
    ensures
        r == *s,
{
    match s {
        Some(v) => Some(v.clone()),
        None => None,
    }
}

// ---------------------------------------------------------------------------
// Instants
// ---------------------------------------------------------------------------

/// Seconds since the Unix epoch of the first instant that `chrono` can
/// represent (the start of year -262143, UTC).
pub const MIN_TIMESTAMP: i64 = -8334601315200;

/// Seconds since the Unix epoch of the last whole second that `chrono` can
/// represent (the end of year 262142, UTC).
pub const MAX_TIMESTAMP: i64 = 8210266876799;

/// The largest number of whole seconds in a `chrono::TimeDelta`.
pub const MAX_DELTA_SECONDS: i64 = 9223372036854775;

/// An instant in UTC: whole seconds since the Unix epoch and the nanoseconds
/// past that second.
#[derive(Clone, Copy, Debug, PartialEq, Eq, Structural)]
pub struct UtcTimestamp {
    pub seconds: i64,
    pub nanos: u32,
}

impl UtcTimestamp {
    /// Lies in the range of instants that `chrono::DateTime<Utc>` represents.
    pub open spec fn well_formed(self) -> bool {
        MIN_TIMESTAMP <= self.seconds <= MAX_TIMESTAMP && self.nanos < 1_000_000_000
    }
}

// ---------------------------------------------------------------------------
// Configuration
// ---------------------------------------------------------------------------

/// The unit of the automatic sync interval.
#[derive(Clone, Copy, Debug, PartialEq, Eq, Structural)]
pub enum ScheduleUnit {
    Hours,
    Days,
}

impl Default for ScheduleUnit {
    fn default() -> (r: Self)
        ensures
            r == ScheduleUnit::Hours,
    {
        ScheduleUnit::Hours
    }
}

/// Seconds in one interval unit.
pub open spec fn unit_seconds(unit: ScheduleUnit) -> int {
    match unit {
        ScheduleUnit::Hours => 3600,
        ScheduleUnit::Days => 86400,
    }
}

/// A printer the application talks to.
#[derive(Clone, Debug)]
pub struct PrinterConfig {
    pub id: String,
    pub name: String,
    pub host: String,
    pub http_port: u16,
    pub sn: String,
    pub machine_type: String,
    pub paired: bool,
}

impl PrinterConfig {
    /// A field-by-field copy.
    pub fn duplicate(&self) -> (r: Self)
        ensures
            r == *self,
    {
        PrinterConfig {
            id: self.id.clone(),
            name: self.name.clone(),
            host: self.host.clone(),
            http_port: self.http_port,
            sn: self.sn.clone(),
            machine_type: self.machine_type.clone(),
            paired: self.paired,
        }
    }
}

impl Default for PrinterConfig {
    fn default() -> (r: Self)
        ensures
            r.id@.len() == 0,
            r.name@.len() == 0,
            r.host@.len() == 0,
            r.http_port == 0,
            r.sn@.len() == 0,
            r.machine_type@.len() == 0,
            !r.paired,
    {
        PrinterConfig {
            id: String::new(),
            name: String::new(),
            host: String::new(),
            http_port: 0,
            sn: String::new(),
            machine_type: String::new(),
            paired: false,
        }
    }
}

/// The settings of the application.
#[derive(Clone, Debug)]
pub struct AppConfig {
    pub version: u8,
    pub printer: Option<PrinterConfig>,
    pub destination: String,
    pub schedule_enabled: bool,
    pub interval_value: u64,
    pub interval_unit: ScheduleUnit,
    pub download_thumbnails: bool,
    pub autostart: bool,
    pub run_in_background: bool,
}

/// The interval value that the schedule uses: at least one, read as an `i64`
/// (values above `i64::MAX` wrap around, as an `as` cast does).
pub open spec fn interval_as_i64(value: u64) -> int {
    let v: int = if value < 1 { 1 } else { value as int };
    if v <= i64::MAX {
        v
    } else {
        v - 0x1_0000_0000_0000_0000
    }
}

impl AppConfig {
    /// The length of the automatic sync interval, in seconds.
    pub open spec fn schedule_seconds(self) -> int {
        interval_as_i64(self.interval_value) * unit_seconds(self.interval_unit)
    }

    /// The interval fits in a `chrono::TimeDelta`.
    pub open spec fn schedule_in_range(self) -> bool {
        -MAX_DELTA_SECONDS <= self.schedule_seconds() <= MAX_DELTA_SECONDS
    }

    /// The next automatic sync after `now`, if the schedule is enabled.
    pub open spec fn next_sync_spec(self, now: UtcTimestamp) -> Option<UtcTimestamp> {
        if self.schedule_enabled {
            Some(UtcTimestamp { seconds: (now.seconds + self.schedule_seconds()) as i64, nanos: now.nanos })
        } else {
            None
        }
    }

    /// `next_sync_from` can compute its result for `now`.
    pub open spec fn next_sync_defined(self, now: UtcTimestamp) -> bool {
        self.schedule_enabled ==> {
            &&& self.schedule_in_range()
            &&& MIN_TIMESTAMP <= now.seconds + self.schedule_seconds() <= MAX_TIMESTAMP
        }
    }

    /// The length of the automatic sync interval in seconds: `interval_value`
    /// (at least one) hours or days.
    pub fn schedule_duration(&self) -> (secs: i64)
        requires
            self.schedule_in_range(),
        ensures
            secs == self.schedule_seconds(),
    {
        let value: u64 = if self.interval_value < 1 {
            1
        } else {
            self.interval_value
        };
        let signed: i64 = if value <= 9223372036854775807u64 {
            value as i64
        } else {
            let back: u64 = 18446744073709551615u64 - value;
            -(back as i64) - 1
        };
        match self.interval_unit {
            ScheduleUnit::Hours => signed * 3600,
            ScheduleUnit::Days => signed * 86400,
        }
    }

    /// Whether `next_sync_from` can compute its result for `now` (where it
    /// cannot, the interval or the sum leaves the range of `chrono`).
    pub fn next_sync_is_defined(&self, now: UtcTimestamp) -> (r: bool)
        ensures
            r == self.next_sync_defined(now),
    {
        if !self.schedule_enabled {
            return true;
        }
        let value: i128 = if self.interval_value < 1 {
            1
        } else if self.interval_value <= 9223372036854775807u64 {
            self.interval_value as i128
        } else {
            self.interval_value as i128 - 18446744073709551616i128
        };
        let secs: i128 = match self.interval_unit {
            ScheduleUnit::Hours => value * 3600,
            ScheduleUnit::Days => value * 86400,
        };
        let in_range = -(MAX_DELTA_SECONDS as i128) <= secs && secs <= MAX_DELTA_SECONDS as i128;
        let sum: i128 = now.seconds as i128 + secs;
        in_range && MIN_TIMESTAMP as i128 <= sum && sum <= MAX_TIMESTAMP as i128
    }

    /// The instant of the next automatic sync: `now` plus the interval when the
    /// schedule is enabled, `None` otherwise.
    pub fn next_sync_from(&self, now: UtcTimestamp) -> (r: Option<UtcTimestamp>)
        requires
            self.next_sync_defined(now),
        ensures
            r == self.next_sync_spec(now),
            now.well_formed() && r is Some ==> r->0.well_formed(),
    {
        if self.schedule_enabled {
            let secs = self.schedule_duration();
            Some(UtcTimestamp { seconds: now.seconds + secs, nanos: now.nanos })
        } else {
            None
        }
    }

    /// A field-by-field copy.
    pub fn duplicate(&self) -> (r: Self)
        ensures
            r == *self,
    {
        AppConfig {
            version: self.version,
            printer: match &self.printer {
                Some(p) => Some(p.duplicate()),
                None => None,
            },
            destination: self.destination.clone(),
            schedule_enabled: self.schedule_enabled,
            interval_value: self.interval_value,
            interval_unit: self.interval_unit,
            download_thumbnails: self.download_thumbnails,
            autostart: self.autostart,
            run_in_background: self.run_in_background,
        }
    }
}

impl Default for AppConfig {
    /// Version 1, no printer, no destination, a sync every 12 hours,
    /// thumbnails on, no start at sign-in, running in the background.
    fn default() -> (r: Self)
        ensures
            r.version == 1,
            r.printer is None,
            r.destination@.len() == 0,
            r.schedule_enabled,
            r.interval_value == 12,
            r.interval_unit == ScheduleUnit::Hours,
            r.download_thumbnails,
            !r.autostart,
            r.run_in_background,
    {
        AppConfig {
            version: 1,
            printer: None,
            destination: String::new(),
            schedule_enabled: true,
            interval_value: 12,
            interval_unit: ScheduleUnit::Hours,
            download_thumbnails: true,
            autostart: false,
            run_in_background: true,
        }
    }
}

// ---------------------------------------------------------------------------
// Printers
// ---------------------------------------------------------------------------

/// A printer found on the local network.
#[derive(Clone, Debug)]
pub struct DiscoveredPrinter {
    pub id: String,
    pub name: String,
    pub host: String,
    pub port: u16,
    pub sn: String,
    pub machine_type: String,
    pub device_name: String,
    pub link_mode: String,
    pub region: String,
}

/// A request to pair with a printer by its address.
#[derive(Clone, Debug)]
pub struct DirectConnectRequest {
    pub host: String,
    pub name: Option<String>,
    pub http_port: Option<u16>,
}

// ---------------------------------------------------------------------------
// Timelapses
// ---------------------------------------------------------------------------

/// A timelapse video stored on the printer.
#[derive(Clone, Debug)]
pub struct TimelapseInstance {
    pub date_index: String,
    pub gcode_name: String,
    pub gcode_path: String,
    pub thumbnail_path: String,
    pub timelapse_dir: String,
    pub video_path: String,
    pub video_duration: String,
    pub generate_date: String,
    pub thumbnail_base64: String,
    pub video_local_url_suffix: String,
    pub video_file_size: u64,
    pub unix_timestamp_s: i64,
}

/// The key under which a timelapse of printer `sn` is remembered:
/// `sn|video_path|size|timestamp`.
pub open spec fn remote_key_spec(sn: Seq<char>, video_path: Seq<char>, size: u64, timestamp: i64) -> Seq<char> {
    sn + seq!['|'] + video_path + seq!['|'] + decimal(size as nat) + seq!['|'] + signed_decimal(
        timestamp as int,
    )
}

impl TimelapseInstance {
    /// The key that identifies this timelapse of printer `printer_sn` in the
    /// history.
    pub fn remote_key(&self, printer_sn: &str) -> (r: String)
        ensures
            r@ == remote_key_spec(printer_sn@, self.video_path@, self.video_file_size, self.unix_timestamp_s),
    {
        let mut out = chars_of(printer_sn);
        out.push('|');
        append_str(&mut out, self.video_path.as_str());
        out.push('|');
        push_decimal(&mut out, self.video_file_size);
        out.push('|');
        push_signed_decimal(&mut out, self.unix_timestamp_s);
        string_from_chars(out.as_slice())
    }
}

/// Text free of `|` followed by `|` and more text: the part before the first
/// `|` and the part after it are determined.
proof fn lemma_split_at_first_bar(a: Seq<char>, b: Seq<char>, c: Seq<char>, d: Seq<char>)
    requires
        a + seq!['|'] + b == c + seq!['|'] + d,
        forall|i: int| 0 <= i < a.len() ==> a[i] != '|',
        forall|i: int| 0 <= i < c.len() ==> c[i] != '|',
    ensures
        a == c,
        b == d,
{
    let l = a + seq!['|'] + b;
    let r = c + seq!['|'] + d;
    if a.len() < c.len() {
        assert(l[a.len() as int] == '|');
        assert(r[a.len() as int] == c[a.len() as int]);
    } else if c.len() < a.len() {
        assert(r[c.len() as int] == '|');
        assert(l[c.len() as int] == a[c.len() as int]);
    }
    assert(a =~= l.take(a.len() as int));
    assert(c =~= r.take(c.len() as int));
    assert(b =~= l.skip(a.len() as int + 1));
    assert(d =~= r.skip(c.len() as int + 1));
}

proof fn lemma_decimal_has_no_bar(n: nat)
    ensures
        forall|i: int| 0 <= i < decimal(n).len() ==> decimal(n)[i] != '|',
{
    lemma_decimal_digits(n);
    assert forall|i: int| 0 <= i < decimal(n).len() implies decimal(n)[i] != '|' by {
        assert('0' <= decimal(n)[i] <= '9');
    }
}

/// The history key of a timelapse of one printer and one path changes exactly
/// when its size or its time stamp does; no other field of the timelapse
/// enters it, so a file that is recorded again or resized gets a new key.
pub proof fn law_remote_key_tells_size_and_time(
    sn: Seq<char>,
    path: Seq<char>,
    size1: u64,
    time1: i64,
    size2: u64,
    time2: i64,
)
    ensures
        remote_key_spec(sn, path, size1, time1) == remote_key_spec(sn, path, size2, time2) <==> (
        size1 == size2 && time1 == time2),
{
    let p = sn + seq!['|'] + path + seq!['|'];
    let k1 = remote_key_spec(sn, path, size1, time1);
    let k2 = remote_key_spec(sn, path, size2, time2);
    if k1 == k2 {
        let t1 = decimal(size1 as nat) + seq!['|'] + signed_decimal(time1 as int);
        let t2 = decimal(size2 as nat) + seq!['|'] + signed_decimal(time2 as int);
        assert(k1 =~= p + t1);
        assert(k2 =~= p + t2);
        assert(t1 =~= k1.skip(p.len() as int));
        assert(t2 =~= k2.skip(p.len() as int));
        lemma_decimal_has_no_bar(size1 as nat);
        lemma_decimal_has_no_bar(size2 as nat);
        lemma_split_at_first_bar(
            decimal(size1 as nat),
            signed_decimal(time1 as int),
            decimal(size2 as nat),
            signed_decimal(time2 as int),
        );
        lemma_decimal_injective(size1 as nat, size2 as nat);
        lemma_signed_decimal_injective(time1 as int, time2 as int);
    }
}

impl Default for TimelapseInstance {
    fn default() -> (r: Self)
        ensures
            r.date_index@.len() == 0,
            r.gcode_name@.len() == 0,
            r.gcode_path@.len() == 0,
            r.thumbnail_path@.len() == 0,
            r.timelapse_dir@.len() == 0,
            r.video_path@.len() == 0,
            r.video_duration@.len() == 0,
            r.generate_date@.len() == 0,
            r.thumbnail_base64@.len() == 0,
            r.video_local_url_suffix@.len() == 0,
            r.video_file_size == 0,
            r.unix_timestamp_s == 0,
    {
        TimelapseInstance {
            date_index: String::new(),
            gcode_name: String::new(),
            gcode_path: String::new(),
            thumbnail_path: String::new(),
            timelapse_dir: String::new(),
            video_path: String::new(),
            video_duration: String::new(),
            generate_date: String::new(),
            thumbnail_base64: String::new(),
            video_local_url_suffix: String::new(),
            video_file_size: 0,
            unix_timestamp_s: 0,
        }
    }
}

// ---------------------------------------------------------------------------
// History and status
// ---------------------------------------------------------------------------

/// How the transfer of one timelapse ended.
#[derive(Clone, Copy, Debug, PartialEq, Eq, Structural)]
pub enum HistoryResult {
    Downloaded,
    AlreadyPresent,
    Failed,
}

/// One transfer, as remembered in the history.
#[derive(Clone, Debug)]
pub struct HistoryEntry {
    pub id: String,
    pub remote_key: String,
    pub printer_sn: String,
    pub gcode_name: String,
    pub remote_path: String,
    pub local_path: String,
    pub size: u64,
    pub completed_at: UtcTimestamp,
    pub result: HistoryResult,
    pub remote_deleted: bool,
    pub message: String,
}

/// What the interface shows of the sync.
#[derive(Clone, Debug)]
pub struct SyncStatus {
    pub phase: String,
    pub running: bool,
    pub last_sync: Option<UtcTimestamp>,
    pub next_sync: Option<UtcTimestamp>,
    pub current_file: Option<String>,
    pub progress_percent: u8,
    pub downloaded: u64,
    pub skipped: u64,
    pub failed: u64,
    pub last_error: Option<String>,
}

impl Default for SyncStatus {
    /// Idle, not running, nothing synced yet.
    fn default() -> (r: Self)
        ensures
            r.phase@ == "idle"@,
            !r.running,
            r.last_sync is None,
            r.next_sync is None,
            r.current_file is None,
            r.progress_percent == 0,
            r.downloaded == 0,
            r.skipped == 0,
            r.failed == 0,
            r.last_error is None,
    {
        SyncStatus {
            phase: string_of("idle"),
            running: false,
            last_sync: None,
            next_sync: None,
            current_file: None,
            progress_percent: 0,
            downloaded: 0,
            skipped: 0,
            failed: 0,
            last_error: None,
        }
    }
}

/// Everything the interface shows at once.
#[derive(Clone, Debug)]
pub struct AppSnapshot {
    pub config: AppConfig,
    pub status: SyncStatus,
    pub history: Vec<HistoryEntry>,
}

/// The counts of one sync.
#[derive(Clone, Copy, Debug, PartialEq, Eq, Structural)]
pub struct SyncSummary {
    pub downloaded: u64,
    pub skipped: u64,
    pub failed: u64,
}

} // verus!
