use listcheck::errors::CheckError;
use listcheck::status::{
    action_triggers_analysis, conclude, pending_report, report_for, status_url,
    truncate_description, Status,
};

#[test]
fn wire_strings() {
    assert_eq!(Status::Pending.wire_str(), "pending");
    assert_eq!(Status::Success.wire_str(), "success");
    assert_eq!(Status::Failure.wire_str(), "failure");
    assert_eq!(Status::Error.wire_str(), "error");
}

#[test]
fn truncation_at_140() {
    let long = "x".repeat(141);
    assert_eq!(truncate_description(&long), "x".repeat(140));
    let exact = "y".repeat(140);
    assert_eq!(truncate_description(&exact), exact);
    assert_eq!(truncate_description("short"), "short");
}

#[test]
fn pending_is_fixed() {
    let (s, d) = pending_report();
    assert_eq!(s, Status::Pending);
    assert_eq!(d, "Analysis started");
}

#[test]
fn success_report() {
    let (s, d) = report_for(&Ok(()));
    assert_eq!(s, Status::Success);
    assert_eq!(d, "Build successful");
}

#[test]
fn violation_reports_failure() {
    let err = CheckError::OutOfOrder { name: "b".to_string() };
    let (s, d) = report_for(&Err(err));
    assert_eq!(s, Status::Failure);
    assert_eq!(d, "`b` does not conform to alphabetical ordering");
}

#[test]
fn operational_error_reports_error() {
    let err = CheckError::UnreachableLink { link: "https://x.example".to_string() };
    let (s, d) = report_for(&Err(err));
    assert_eq!(s, Status::Error);
    assert_eq!(d, "Unreachable link: https://x.example");
}

#[test]
fn long_reason_is_truncated() {
    let err = CheckError::InvalidSyntax { line: "z".repeat(200) };
    let (s, d) = report_for(&Err(err));
    assert_eq!(s, Status::Failure);
    assert_eq!(d.chars().count(), 140);
    assert!(d.starts_with("Invalid syntax for tool: "));
}

#[test]
fn messages() {
    assert_eq!(
        CheckError::EmptySection.message(),
        "A tool section may not be empty"
    );
    assert_eq!(
        CheckError::InvalidSyntax { line: "xyz".to_string() }.message(),
        "Invalid syntax for tool: xyz"
    );
    assert_eq!(
        CheckError::NameTooLong { name: "n".to_string() }.message(),
        "Name of tool is suspiciously long: `n`"
    );
    assert_eq!(
        CheckError::DescriptionTooLong { name: "n".to_string(), desc: "d".to_string() }.message(),
        "Desription of `n` is too long: d"
    );
}

#[test]
fn conclude_fetch_failure() {
    let (s, d) = conclude(Err("could not fetch the document".to_string()));
    assert_eq!(s, Status::Error);
    assert_eq!(d, "could not fetch the document");
}

#[test]
fn conclude_valid_document() {
    let text = "intro\n# contents\ntoc\n# Tools\n## License\nwhatever".to_string();
    let (s, d) = conclude(Ok(text));
    assert_eq!(s, Status::Success);
    assert_eq!(d, "Build successful");
}

#[test]
fn actions_that_trigger() {
    assert!(action_triggers_analysis("opened"));
    assert!(action_triggers_analysis("reopened"));
    assert!(action_triggers_analysis("edited"));
    assert!(action_triggers_analysis("synchronized"));
    assert!(!action_triggers_analysis("closed"));
    assert!(!action_triggers_analysis(""));
}

#[test]
fn status_endpoint() {
    assert_eq!(
        status_url("owner/repo", "abc123"),
        "https://api.github.com/repos/owner/repo/statuses/abc123"
    );
}
