//! Closed status vocabularies and the input checks the routine
//! handlers apply before touching storage: leave categories and
//! statuses, report statuses, and the payloads carrying them.

use vstd::prelude::*;

verus! {

/// The leave categories the system accepts.
#[derive(Clone, Copy, Debug, PartialEq, Eq, Structural)]
pub enum LeaveType {
    Casual,
    Sick,
    Unpaid,
}

/// Lifecycle of a leave request.
#[derive(Clone, Copy, Debug, PartialEq, Eq, Structural)]
pub enum LeaveStatus {
    Pending,
    Approved,
    Rejected,
}

/// Lifecycle of a submitted report.
#[derive(Clone, Copy, Debug, PartialEq, Eq, Structural)]
pub enum ReportStatus {
    Submitted,
    Reviewed,
}

/// Input for a leave status decision.
#[derive(Debug, PartialEq)]
pub struct UpdateLeaveStatusPayload {
    pub status: String,
}

/// Input for filing a report.
#[derive(Debug, PartialEq)]
pub struct CreateReportPayload {
    pub title: String,
    pub content: String,
    pub attachment_path: Option<String>,
}

/// Input for a report status change.
#[derive(Debug, PartialEq)]
pub struct UpdateReportStatusPayload {
    pub status: String,
}

/// Input for creating a user account.
#[derive(Debug, PartialEq)]
pub struct CreateUserPayload {
    pub username: String,
    pub email: String,
    pub password_hash: String,
}

/// Input for renaming a user account.
#[derive(Debug, PartialEq)]
pub struct UpdateUserPayload {
    pub username: String,
    pub email: String,
}

/// Parses a leave category name; exactly "Casual", "Sick" and
/// "Unpaid" are accepted.
pub fn parse_leave_type(s: &String) -> (r: Option<LeaveType>)
    ensures
        r == Some(LeaveType::Casual) <==> s@ == "Casual"@,
        r == Some(LeaveType::Sick) <==> s@ == "Sick"@,
        r == Some(LeaveType::Unpaid) <==> s@ == "Unpaid"@,
        r is None <==> (s@ != "Casual"@ && s@ != "Sick"@ && s@ != "Unpaid"@),
{
    proof {
        reveal_strlit("Casual");
        reveal_strlit("Sick");
        reveal_strlit("Unpaid");
        assert("Casual"@[0] == 'C' && "Sick"@[0] == 'S' && "Unpaid"@[0] == 'U');
        assert("Casual"@ != "Sick"@ && "Casual"@ != "Unpaid"@ && "Sick"@ != "Unpaid"@);
    }
    if *s == "Casual".to_owned() {
        Some(LeaveType::Casual)
    } else if *s == "Sick".to_owned() {
        Some(LeaveType::Sick)
    } else if *s == "Unpaid".to_owned() {
        Some(LeaveType::Unpaid)
    } else {
        None
    }
}

/// Parses a leave status name; exactly "Pending", "Approved" and
/// "Rejected" are accepted.
pub fn parse_leave_status(s: &String) -> (r: Option<LeaveStatus>)
    ensures
        r == Some(LeaveStatus::Pending) <==> s@ == "Pending"@,
        r == Some(LeaveStatus::Approved) <==> s@ == "Approved"@,
        r == Some(LeaveStatus::Rejected) <==> s@ == "Rejected"@,
        r is None <==> (s@ != "Pending"@ && s@ != "Approved"@ && s@ != "Rejected"@),
{
    proof {
        reveal_strlit("Pending");
        reveal_strlit("Approved");
        reveal_strlit("Rejected");
        assert("Pending"@[0] == 'P' && "Approved"@[0] == 'A' && "Rejected"@[0] == 'R');
        assert("Pending"@ != "Approved"@ && "Pending"@ != "Rejected"@ && "Approved"@
            != "Rejected"@);
    }
    if *s == "Pending".to_owned() {
        Some(LeaveStatus::Pending)
    } else if *s == "Approved".to_owned() {
        Some(LeaveStatus::Approved)
    } else if *s == "Rejected".to_owned() {
        Some(LeaveStatus::Rejected)
    } else {
        None
    }
}

/// Parses a report status name; exactly "Submitted" and "Reviewed"
/// are accepted.
pub fn parse_report_status(s: &String) -> (r: Option<ReportStatus>)
    ensures
        r == Some(ReportStatus::Submitted) <==> s@ == "Submitted"@,
        r == Some(ReportStatus::Reviewed) <==> s@ == "Reviewed"@,
        r is None <==> (s@ != "Submitted"@ && s@ != "Reviewed"@),
{
    proof {
        reveal_strlit("Submitted");
        reveal_strlit("Reviewed");
        assert("Submitted"@[0] == 'S' && "Reviewed"@[0] == 'R');
        assert("Submitted"@ != "Reviewed"@);
    }
    if *s == "Submitted".to_owned() {
        Some(ReportStatus::Submitted)
    } else if *s == "Reviewed".to_owned() {
        Some(ReportStatus::Reviewed)
    } else {
        None
    }
}

/// A status decision may only approve or reject, never reset to
/// pending.
pub fn validate_leave_status_update(payload: &UpdateLeaveStatusPayload) -> (r: bool)
    ensures
        r <==> (payload.status@ == "Approved"@ || payload.status@ == "Rejected"@),
{
    payload.status == "Approved".to_owned() || payload.status == "Rejected".to_owned()
}

/// A report status change may only name one of the two known statuses.
pub fn validate_report_status_update(payload: &UpdateReportStatusPayload) -> (r: bool)
    ensures
        r <==> (payload.status@ == "Submitted"@ || payload.status@ == "Reviewed"@),
{
    payload.status == "Submitted".to_owned() || payload.status == "Reviewed".to_owned()
}

/// ASCII whitespace, the separators the reason check recognizes.
pub open spec fn is_space(c: char) -> bool {
    c == ' ' || c == '\t' || c == '\n' || c == '\r'
}

/// A word starts wherever a non-space stands at the start of the
/// string or right after a space.
pub open spec fn word_starts_at(s: Seq<char>, i: int) -> bool {
    0 <= i < s.len() && !is_space(s[i]) && (i == 0 || is_space(s[i - 1]))
}

/// How many words start strictly before position `n`.
pub open spec fn words_before(s: Seq<char>, n: int) -> nat
    decreases n,
{
    if n <= 0 {
        0
    } else {
        words_before(s, n - 1) + (if word_starts_at(s, n - 1) {
            1nat
        } else {
            0nat
        })
    }
}

/// The number of whitespace-separated words in the string.
pub open spec fn word_count(s: Seq<char>) -> nat {
    words_before(s, s.len() as int)
}

/// Counts the whitespace-separated words, walking the characters once.
pub fn count_words(s: &String) -> (n: usize)
    ensures
        n == word_count(s@),
{
    let len = s.as_str().unicode_len();
    let mut count: usize = 0;
    let mut i: usize = 0;
    let mut prev_space = true;
    while i < len
        invariant
            len == s@.len(),
            i <= len,
            count == words_before(s@, i as int),
            count <= i,
            prev_space == (i == 0 || is_space(s@[i as int - 1])),
        decreases len - i,
    {
        let c = s.as_str().get_char(i);
        let space = c == ' ' || c == '\t' || c == '\n' || c == '\r';
        if !space && prev_space {
            count = count + 1;
        }
        prev_space = space;
        i = i + 1;
    }
    count
}

/// The five-word minimum the leave handler applies to a request's
/// reason.
pub fn valid_leave_reason(reason: &String) -> (r: bool)
    ensures
        r <==> word_count(reason@) >= 5,
{
    count_words(reason) >= 5
}

/// Only the owner of a leave request may withdraw it, and only while
/// it is still pending.
pub fn can_delete_leave(owner_id: u64, requester_id: u64, status: &LeaveStatus) -> (r: bool)
    ensures
        r <==> (owner_id == requester_id && *status == LeaveStatus::Pending),
{
    owner_id == requester_id && *status == LeaveStatus::Pending
}

impl LeaveType {
    /// The stored string form of the category.
    pub fn label(&self) -> (r: String)
        ensures
            *self == LeaveType::Casual ==> r@ == "Casual"@,
            *self == LeaveType::Sick ==> r@ == "Sick"@,
            *self == LeaveType::Unpaid ==> r@ == "Unpaid"@,
    {
        match self {
            LeaveType::Casual => "Casual".to_owned(),
            LeaveType::Sick => "Sick".to_owned(),
            LeaveType::Unpaid => "Unpaid".to_owned(),
        }
    }
}

impl LeaveStatus {
    /// The stored string form of the status.
    pub fn label(&self) -> (r: String)
        ensures
            *self == LeaveStatus::Pending ==> r@ == "Pending"@,
            *self == LeaveStatus::Approved ==> r@ == "Approved"@,
            *self == LeaveStatus::Rejected ==> r@ == "Rejected"@,
    {
        match self {
            LeaveStatus::Pending => "Pending".to_owned(),
            LeaveStatus::Approved => "Approved".to_owned(),
            LeaveStatus::Rejected => "Rejected".to_owned(),
        }
    }
}

impl ReportStatus {
    /// The stored string form of the status.
    pub fn label(&self) -> (r: String)
        ensures
            *self == ReportStatus::Submitted ==> r@ == "Submitted"@,
            *self == ReportStatus::Reviewed ==> r@ == "Reviewed"@,
    {
        match self {
            ReportStatus::Submitted => "Submitted".to_owned(),
            ReportStatus::Reviewed => "Reviewed".to_owned(),
        }
    }
}

} // verus!
