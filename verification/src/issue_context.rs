//! The issue that is being processed right now.

use vstd::prelude::*;

verus! {

/// The issue being processed.
#[derive(Clone, Debug)]
pub struct IssueContext {
    pub issue_url: String,
    pub issue_id: Option<String>,
    pub is_processing: bool,
    /// Seconds since the Unix epoch when processing started.
    pub timestamp: u64,
}

/// Remembers the issue being processed, if any.
pub struct IssueContextStore {
    current_issue: Option<IssueContext>,
}

#[verifier::external_type_specification]
#[verifier::external_body]
pub struct ExSystemTime(std::time::SystemTime);

#[verifier::external_type_specification]
#[verifier::external_body]
pub struct ExSystemTimeError(std::time::SystemTimeError);

/// `SystemTime::now`.  Nothing is stated of the result: it is the clock.
#[verifier::external_body]
fn system_now() -> std::time::SystemTime {
    std::time::SystemTime::now()
}

/// `SystemTime::duration_since(UNIX_EPOCH)`.  Nothing is stated of the
/// result: it depends on the clock reading passed in.
#[verifier::external_body]
fn duration_since_epoch(t: &std::time::SystemTime) -> Result<
    std::time::Duration,
    std::time::SystemTimeError,
> {
    t.duration_since(std::time::UNIX_EPOCH)
}

/// `Duration::as_secs`.  Nothing is stated of the result: the duration is
/// opaque here.
#[verifier::external_body]
fn duration_secs(d: &std::time::Duration) -> u64 {
    d.as_secs()
}

/// The timestamp recorded for a clock reading: the whole seconds since the
/// Unix epoch, or 0 when the clock reads earlier than the epoch (`None`).
pub open spec fn timestamp_of(since_epoch: Option<u64>) -> u64 {
    match since_epoch {
        Some(secs) => secs,
        None => 0,
    }
}

/// The timestamp recorded for a clock reading (see [`timestamp_of`]).
pub fn timestamp_from(since_epoch: Option<u64>) -> (res: u64)
    ensures
        res == timestamp_of(since_epoch),
{
    match since_epoch {
        Some(secs) => secs,
        None => 0,
    }
}

/// Reads the clock: the whole seconds since the Unix epoch, or `None` when
/// the clock reads earlier than the epoch.  Nothing is stated of the
/// result: it is the clock.
fn clock_seconds() -> Option<u64> {
    let now = system_now();
    match duration_since_epoch(&now) {
        Ok(d) => Some(duration_secs(&d)),
        Err(_) => None,
    }
}

/// A copy of a context, field by field.
fn copy_context(c: &IssueContext) -> (res: IssueContext)
    ensures
        res == *c,
{
    IssueContext {
        issue_url: c.issue_url.clone(),
        issue_id: match &c.issue_id {
            Some(id) => Some(id.clone()),
            None => None,
        },
        is_processing: c.is_processing,
        timestamp: c.timestamp,
    }
}

impl IssueContextStore {
    /// The issue being processed, if any.
    pub closed spec fn current(&self) -> Option<IssueContext> {
        self.current_issue
    }

    /// A store with no issue.
    pub fn new() -> (res: Self)
        ensures
            res.current() is None,
    {
        Self { current_issue: None }
    }

    /// Records that `issue_url` is being processed from now on, replacing
    /// whatever was recorded before.  The timestamp is the clock's reading
    /// (see [`Self::set_current_issue_at`]); what the clock reads is not
    /// stated.
    pub fn set_current_issue(&mut self, issue_url: String, issue_id: Option<String>)
        ensures
            final(self).current() matches Some(c) && c.issue_url == issue_url && c.issue_id
                == issue_id && c.is_processing,
    {
        let since_epoch = clock_seconds();
        self.set_current_issue_at(issue_url, issue_id, since_epoch);
    }

    /// Records that `issue_url` is being processed since the clock reading
    /// `since_epoch` (whole seconds since the Unix epoch, `None` when the
    /// clock read earlier than the epoch), replacing whatever was recorded
    /// before.
    pub fn set_current_issue_at(
        &mut self,
        issue_url: String,
        issue_id: Option<String>,
        since_epoch: Option<u64>,
    )
        ensures
            final(self).current() == Some(
                IssueContext {
                    issue_url,
                    issue_id,
                    is_processing: true,
                    timestamp: timestamp_of(since_epoch),
                },
            ),
    {
        let timestamp = timestamp_from(since_epoch);
        let context = IssueContext { issue_url, issue_id, is_processing: true, timestamp };
        self.current_issue = Some(context);
    }

    /// The recorded issue, if any.
    pub fn get_current_issue(&self) -> (res: Option<IssueContext>)
        ensures
            res == self.current(),
    {
        match &self.current_issue {
            Some(c) => Some(copy_context(c)),
            None => None,
        }
    }

    /// Forgets the recorded issue.
    pub fn clear_current_issue(&mut self)
        ensures
            final(self).current() is None,
    {
        self.current_issue = None;
    }

    /// Whether an issue is recorded.
    pub fn is_processing(&self) -> (res: bool)
        ensures
            res == self.current() is Some,
    {
        self.current_issue.is_some()
    }
}

impl Default for IssueContextStore {
    fn default() -> (res: Self)
        ensures
            res.current() is None,
    {
        Self::new()
    }
}

} // verus!
