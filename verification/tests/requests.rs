use pbac_core::requests::can_delete_leave;
use pbac_core::requests::count_words;
use pbac_core::requests::parse_leave_status;
use pbac_core::requests::parse_leave_type;
use pbac_core::requests::parse_report_status;
use pbac_core::requests::valid_leave_reason;
use pbac_core::requests::validate_leave_status_update;
use pbac_core::requests::validate_report_status_update;
use pbac_core::requests::LeaveStatus;
use pbac_core::requests::LeaveType;
use pbac_core::requests::ReportStatus;
use pbac_core::requests::UpdateLeaveStatusPayload;
use pbac_core::requests::UpdateReportStatusPayload;

#[test]
fn leave_types_parse_exactly() {
    assert_eq!(parse_leave_type(&"Casual".to_string()), Some(LeaveType::Casual));
    assert_eq!(parse_leave_type(&"Sick".to_string()), Some(LeaveType::Sick));
    assert_eq!(parse_leave_type(&"Unpaid".to_string()), Some(LeaveType::Unpaid));
    assert_eq!(parse_leave_type(&"casual".to_string()), None);
    assert_eq!(parse_leave_type(&"Vacation".to_string()), None);
}

#[test]
fn leave_statuses_parse_exactly() {
    assert_eq!(parse_leave_status(&"Pending".to_string()), Some(LeaveStatus::Pending));
    assert_eq!(parse_leave_status(&"Approved".to_string()), Some(LeaveStatus::Approved));
    assert_eq!(parse_leave_status(&"Rejected".to_string()), Some(LeaveStatus::Rejected));
    assert_eq!(parse_leave_status(&"Denied".to_string()), None);
}

#[test]
fn report_statuses_parse_exactly() {
    assert_eq!(parse_report_status(&"Submitted".to_string()), Some(ReportStatus::Submitted));
    assert_eq!(parse_report_status(&"Reviewed".to_string()), Some(ReportStatus::Reviewed));
    assert_eq!(parse_report_status(&"Draft".to_string()), None);
}

#[test]
fn leave_status_update_allows_only_decisions() {
    let approve = UpdateLeaveStatusPayload { status: "Approved".to_string() };
    let reject = UpdateLeaveStatusPayload { status: "Rejected".to_string() };
    let reset = UpdateLeaveStatusPayload { status: "Pending".to_string() };
    assert!(validate_leave_status_update(&approve));
    assert!(validate_leave_status_update(&reject));
    assert!(!validate_leave_status_update(&reset));
}

#[test]
fn report_status_update_allows_known_statuses_only() {
    let submitted = UpdateReportStatusPayload { status: "Submitted".to_string() };
    let reviewed = UpdateReportStatusPayload { status: "Reviewed".to_string() };
    let other = UpdateReportStatusPayload { status: "Closed".to_string() };
    assert!(validate_report_status_update(&submitted));
    assert!(validate_report_status_update(&reviewed));
    assert!(!validate_report_status_update(&other));
}

#[test]
fn word_counting_handles_runs_of_whitespace() {
    assert_eq!(count_words(&"".to_string()), 0);
    assert_eq!(count_words(&"   ".to_string()), 0);
    assert_eq!(count_words(&"one".to_string()), 1);
    assert_eq!(count_words(&"  spread   out words  ".to_string()), 3);
    assert_eq!(count_words(&"a\tb\nc\rd e".to_string()), 5);
}

#[test]
fn leave_reason_needs_five_words() {
    assert!(valid_leave_reason(&"I need a short break".to_string()));
    assert!(valid_leave_reason(&"  one two three four five six ".to_string()));
    assert!(!valid_leave_reason(&"too short a reason".to_string()));
    assert!(!valid_leave_reason(&"".to_string()));
}

#[test]
fn leave_deletion_is_owner_and_pending_only() {
    assert!(can_delete_leave(4, 4, &LeaveStatus::Pending));
    assert!(!can_delete_leave(4, 5, &LeaveStatus::Pending));
    assert!(!can_delete_leave(4, 4, &LeaveStatus::Approved));
    assert!(!can_delete_leave(4, 4, &LeaveStatus::Rejected));
}

#[test]
fn labels_round_trip_through_parsing() {
    for t in [LeaveType::Casual, LeaveType::Sick, LeaveType::Unpaid] {
        assert_eq!(parse_leave_type(&t.label()), Some(t));
    }
    for st in [LeaveStatus::Pending, LeaveStatus::Approved, LeaveStatus::Rejected] {
        assert_eq!(parse_leave_status(&st.label()), Some(st));
    }
    for st in [ReportStatus::Submitted, ReportStatus::Reviewed] {
        assert_eq!(parse_report_status(&st.label()), Some(st));
    }
}
