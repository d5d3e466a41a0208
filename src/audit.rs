use vstd::prelude::*;
use crate::banner::same_text;

verus! {

/// The mutating operations that the audit log records.
#[derive(PartialEq, Eq, Structural, Clone, Copy, Debug)]
pub enum AuditAction {
    Add,
    Delete,
    UpdateCurrentEpisodes,
    UpdateTotalEpisodes,
    UpdateReleaseDay,
    UpdateReleaseTime,
}

/// The label under which an action is written to the audit log.
pub open spec fn action_label_spec(a: AuditAction) -> Seq<char> {
    match a {
        AuditAction::Add => "add"@,
        AuditAction::Delete => "delete"@,
        AuditAction::UpdateCurrentEpisodes => "update current episodes"@,
        AuditAction::UpdateTotalEpisodes => "update total episodes"@,
        AuditAction::UpdateReleaseDay => "update release day"@,
        AuditAction::UpdateReleaseTime => "update release time"@,
    }
}

impl AuditAction {
    /// The label of this action in the audit log.
    pub fn label(&self) -> (r: String)
        ensures
            r@ == action_label_spec(*self),
    {
        match self {
            AuditAction::Add => String::from_str("add"),
            AuditAction::Delete => String::from_str("delete"),
            AuditAction::UpdateCurrentEpisodes => String::from_str("update current episodes"),
            AuditAction::UpdateTotalEpisodes => String::from_str("update total episodes"),
            AuditAction::UpdateReleaseDay => String::from_str("update release day"),
            AuditAction::UpdateReleaseTime => String::from_str("update release time"),
        }
    }
}

impl AuditAction {
    /// The action written under `label`, if one is.
    pub fn from_label(label: &str) -> (r: Option<AuditAction>)
        ensures
            r matches Some(a) ==> action_label_spec(a) == label@,
            (exists|a: AuditAction| action_label_spec(a) == label@) ==> r.is_some(),
    {
        if same_text(label, "add") {
            Some(AuditAction::Add)
        } else if same_text(label, "delete") {
            Some(AuditAction::Delete)
        } else if same_text(label, "update current episodes") {
            Some(AuditAction::UpdateCurrentEpisodes)
        } else if same_text(label, "update total episodes") {
            Some(AuditAction::UpdateTotalEpisodes)
        } else if same_text(label, "update release day") {
            Some(AuditAction::UpdateReleaseDay)
        } else if same_text(label, "update release time") {
            Some(AuditAction::UpdateReleaseTime)
        } else {
            None
        }
    }
}

/// One immutable record of a mutating action.
#[derive(Clone, Debug)]
pub struct AuditEntry {
    pub user_name: String,
    pub action: AuditAction,
    /// UTC time in RFC 3339 form; texts of this form order as the times do.
    pub timestamp: String,
}

pub struct AuditEntryView {
    pub user_name: Seq<char>,
    pub action: AuditAction,
    pub timestamp: Seq<char>,
}

impl View for AuditEntry {
    type V = AuditEntryView;

    open spec fn view(&self) -> AuditEntryView {
        AuditEntryView { user_name: self.user_name@, action: self.action, timestamp: self.timestamp@ }
    }
}

/// Whether `a` comes strictly before `b` in the order of their characters.
pub open spec fn text_before(a: Seq<char>, b: Seq<char>) -> bool
    decreases a.len(),
{
    if a.len() == 0 {
        b.len() > 0
    } else if b.len() == 0 {
        false
    } else if a[0] != b[0] {
        (a[0] as u32) < (b[0] as u32)
    } else {
        text_before(a.drop_first(), b.drop_first())
    }
}

/// Whether `a` comes at or after `b` in the order of their characters.
pub fn text_at_least(a: &str, b: &str) -> (r: bool)
    ensures
        r == !text_before(a@, b@),
{
    let n = a.unicode_len();
    let m = b.unicode_len();
    let mut i: usize = 0;
    assert(a@.skip(0) =~= a@);
    assert(b@.skip(0) =~= b@);
    while i < n && i < m
        invariant
            n == a@.len(),
            m == b@.len(),
            i <= n,
            i <= m,
            text_before(a@, b@) == text_before(a@.skip(i as int), b@.skip(i as int)),
        decreases n - i,
    {
        let x = a.get_char(i);
        let y = b.get_char(i);
        assert(a@.skip(i as int)[0] == x);
        assert(b@.skip(i as int)[0] == y);
        if x != y {
            return (y as u32) < (x as u32);
        }
        assert(a@.skip(i as int).drop_first() =~= a@.skip(i + 1));
        assert(b@.skip(i as int).drop_first() =~= b@.skip(i + 1));
        i = i + 1;
    }
    assert(a@.skip(i as int).len() == n - i);
    assert(b@.skip(i as int).len() == m - i);
    !(i == n && i < m)
}

/// Length of the whole-second part `YYYY-MM-DDTHH:MM:SS` of an RFC 3339 stamp.
pub const STAMP_SECONDS_LEN: usize = 19;

/// The whole-second part of a stamp: its first `STAMP_SECONDS_LEN` characters,
/// which leave out a fraction of a second and the offset.
pub open spec fn stamp_seconds(s: Seq<char>) -> Seq<char> {
    if s.len() <= STAMP_SECONDS_LEN {
        s
    } else {
        s.subrange(0, STAMP_SECONDS_LEN as int)
    }
}

/// Whether UTC stamp `a` falls in the same second as `b` or later; a stamp
/// with a fraction of a second counts in its whole second.
pub fn stamp_at_least(a: &str, b: &str) -> (r: bool)
    ensures
        r == !text_before(stamp_seconds(a@), stamp_seconds(b@)),
{
    let n = a.unicode_len();
    let m = b.unicode_len();
    let a2 = if n <= STAMP_SECONDS_LEN { a } else { a.substring_char(0, STAMP_SECONDS_LEN) };
    let b2 = if m <= STAMP_SECONDS_LEN { b } else { b.substring_char(0, STAMP_SECONDS_LEN) };
    text_at_least(a2, b2)
}

/// Earliest UNIX time, in seconds, that RFC 3339 can write: 0000-01-01T00:00:00Z.
pub const EARLIEST_WRITABLE_SECOND: i64 = -62167219200;

/// Latest UNIX time, in seconds, that RFC 3339 can write: 9999-12-31T23:59:59Z.
pub const LATEST_WRITABLE_SECOND: i64 = 253402300799;

/// The RFC 3339 text of a UTC instant given as whole seconds since the UNIX epoch.
pub uninterp spec fn rfc3339_of(unix_seconds: int) -> Seq<char>;

/// Relies on `time::OffsetDateTime::from_unix_timestamp` and its `format` with
/// `well_known::Rfc3339`: both succeed for the years 0 to 9999, and the text
/// depends on the instant alone.
#[verifier::external_body]
pub(crate) fn format_rfc3339(unix_seconds: i64) -> (r: Option<String>)
    ensures
        EARLIEST_WRITABLE_SECOND <= unix_seconds <= LATEST_WRITABLE_SECOND ==> r.is_some(),
        r matches Some(s) ==> s@ == rfc3339_of(unix_seconds as int),
{
    let t = time::OffsetDateTime::from_unix_timestamp(unix_seconds).ok()?;
    t.format(&time::format_description::well_known::Rfc3339).ok()
}

/// Relies on `time::OffsetDateTime::now_utc`: the current UTC time, in whole
/// seconds since the UNIX epoch. Nothing is known of its value.
#[verifier::external_body]
pub(crate) fn clock_now() -> (r: i64) {
    time::OffsetDateTime::now_utc().unix_timestamp()
}

/// The current UTC time as RFC 3339 text, if the clock reads a writable year.
pub fn current_timestamp() -> (r: Option<String>)
    ensures
        r matches Some(s) ==> exists|t: int| s@ == rfc3339_of(t),
{
    let now = clock_now();
    format_rfc3339(now)
}

/// Weekday of a UNIX time in seconds, counted from Sunday (0) to Saturday (6).
pub open spec fn weekday_of_spec(unix_seconds: int) -> int {
    (unix_seconds / 86400 + 4) % 7
}

/// Weekday of a UNIX time in seconds; 1970-01-01 was a Thursday.
pub fn weekday_of(unix_seconds: i64) -> (r: u8)
    ensures
        r as int == weekday_of_spec(unix_seconds as int),
        r < 7,
{
    if unix_seconds >= 0 {
        let days: u64 = (unix_seconds as u64) / 86400;
        let r: u64 = (days % 7 + 4) % 7;
        assert(r == (unix_seconds as int / 86400 + 4) % 7) by (nonlinear_arith)
            requires
                unix_seconds >= 0,
                days == unix_seconds as int / 86400,
                r == (days % 7 + 4) % 7,
        ;
        r as u8
    } else {
        let a: u64 = (-(unix_seconds + 1)) as u64;
        let k: u64 = (a / 86400) % 7;
        let r: u64 = (10 - k) % 7;
        assert(r == (unix_seconds as int / 86400 + 4) % 7) by (nonlinear_arith)
            requires
                unix_seconds < 0,
                a == -(unix_seconds + 1),
                k == (a / 86400) % 7,
                r == (10 - k) % 7,
        ;
        r as u8
    }
}

} // verus!
