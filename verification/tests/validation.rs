use listcheck::errors::CheckError;
use listcheck::parse::parse_tool;
use listcheck::tool::Tool;
use listcheck::validate::{
    check, check_ordering, check_section, check_section_structure, check_structure, check_tool,
};

fn tool(name: &str, link: &str, desc: &str) -> Tool {
    Tool::new(name.to_string(), link.to_string(), desc.to_string())
}

#[test]
fn test_ordering() {
    assert!(check_ordering(vec![]).is_ok());

    assert!(check_ordering(vec![tool("a", "url", "desc")]).is_ok());

    assert!(check_ordering(vec![
        tool("0", "", ""),
        tool("1", "", ""),
        tool("a", "", ""),
        tool("Axx", "", ""),
        tool("B", "", ""),
        tool("b", "", ""),
        tool("c", "", ""),
    ])
    .is_ok());

    assert!(check_ordering(vec![tool("b", "", ""), tool("a", "", ""), tool("c", "", "")]).is_err());
}

#[test]
fn ordering_names_first_offender() {
    let r = check_ordering(vec![tool("b", "", ""), tool("a", "", ""), tool("c", "", "")]);
    match r {
        Err(CheckError::OutOfOrder { name }) => assert_eq!(name, "b"),
        _ => panic!("expected an ordering failure naming `b`"),
    }
}

#[test]
fn ordering_is_case_insensitive() {
    // `B` before `a` is in order by code point but not once case-folded.
    let r = check_ordering(vec![tool("B", "", ""), tool("a", "", "")]);
    match r {
        Err(CheckError::OutOfOrder { name }) => assert_eq!(name, "B"),
        _ => panic!("expected an ordering failure naming `B`"),
    }
    // Ties between case-folded names are accepted.
    assert!(check_ordering(vec![tool("Axx", "", ""), tool("axx", "", "")]).is_ok());
}

#[test]
fn parses_plain_entry() {
    let t = parse_tool("* [Foo](https://example.com) - bar").unwrap();
    assert_eq!(t.name, "Foo");
    assert_eq!(t.link, "https://example.com");
    assert_eq!(t.desc, "bar");
}

#[test]
fn parses_copyright_entry() {
    let t = parse_tool("* [Foo](http://example.com) :copyright: - free text").unwrap();
    assert_eq!(t.name, "Foo");
    assert_eq!(t.link, "http://example.com");
    assert_eq!(t.desc, "free text");
}

#[test]
fn rejects_line_without_link() {
    let r = parse_tool("* Foo - bar");
    match r {
        Err(CheckError::InvalidSyntax { line }) => assert_eq!(line, "* Foo - bar"),
        _ => panic!("expected a syntax error"),
    }
}

#[test]
fn rejects_link_without_scheme() {
    assert!(matches!(
        parse_tool("* [Foo](example.com) - bar"),
        Err(CheckError::InvalidSyntax { .. })
    ));
}

#[test]
fn name_length_limit() {
    let long = "n".repeat(51);
    let line = format!("* [{}](https://example.com) - d", long);
    match parse_tool(&line) {
        Err(CheckError::NameTooLong { name }) => assert_eq!(name, long),
        _ => panic!("expected a name-length failure"),
    }
    let ok = "n".repeat(50);
    let line = format!("* [{}](https://example.com) - d", ok);
    assert!(parse_tool(&line).is_ok());
}

#[test]
fn description_length_limit() {
    let line = format!("* [N](https://example.com) - {}", "d".repeat(200));
    assert!(parse_tool(&line).is_ok());
    let line = format!("* [N](https://example.com) - {}", "d".repeat(201));
    assert!(matches!(
        parse_tool(&line),
        Err(CheckError::DescriptionTooLong { .. })
    ));
}

#[test]
fn license_section_always_passes() {
    let r = check_section("License\n*** ]( arbitrary garbage ## \n* [broken".to_string());
    assert!(r.is_ok());
    assert!(check_section("License".to_string()).is_ok());
}

#[test]
fn heading_only_section_is_empty() {
    assert!(matches!(
        check_section("Tools".to_string()),
        Err(CheckError::EmptySection)
    ));
}

#[test]
fn blank_body_section_passes() {
    // A heading followed by a newline has one blank content line, which is
    // ignored; the section is not empty.
    assert!(check_section("Tools\n".to_string()).is_ok());
}

#[test]
fn sub_headlines_are_skipped() {
    let sec = "Tools\nWeb Frameworks:\n* [alpha](https://a.example) - one\n* [beta](https://b.example) - two";
    assert!(check_section_structure(sec).is_ok());
}

#[test]
fn colon_line_of_digits_is_no_sub_headline() {
    // Only letters and whitespace before the colon make a sub-headline;
    // this line must parse as an entry, and it cannot.
    assert!(matches!(
        check_section("X\n123:".to_string()),
        Err(CheckError::InvalidSyntax { .. })
    ));
}

#[test]
fn malformed_line_fails_section() {
    let sec = "Tools\nnot an entry at all";
    assert!(matches!(
        check_section_structure(sec),
        Err(CheckError::InvalidSyntax { .. })
    ));
}

#[test]
fn first_two_sections_are_never_validated() {
    // Both leading sections are malformed; nothing after them holds an
    // entry, so the whole document passes without a single probe.
    let text = "* [broken\n# ]( also broken ##\n# Tools\n## License\n]( garbage";
    assert!(check(text.to_string()).is_ok());
}

#[test]
fn short_document_passes() {
    assert!(check("just one line".to_string()).is_ok());
}

#[test]
fn failing_subsection_names_offender() {
    let text = "intro prose\n# Table of contents\ncontents here\n# Tools\n## Apps\n* [alpha](https://a.example) - one\n* [Beta](https://b.example) - two\n## Libs\n* [delta](https://d.example) - three\n* [Charlie](https://c.example) - four";
    match check_structure(text) {
        Err(CheckError::OutOfOrder { name }) => assert_eq!(name, "delta"),
        _ => panic!("expected an ordering failure from the second subsection"),
    }
}

#[test]
fn sorted_document_passes_structurally() {
    let text = "intro prose\n# Table of contents\ncontents here\n# Tools\n## Apps\n* [alpha](https://a.example) - one\n* [Beta](https://b.example) - two\n\n## License\nanything";
    assert!(check_structure(text).is_ok());
}

#[test]
fn unreachable_link_is_reported() {
    // Port 1 on the loopback interface has nothing listening, so the
    // probe fails and the entry is rejected as unreachable.
    let r = check_tool("* [X](http://127.0.0.1:1/) - d");
    match r {
        Err(CheckError::UnreachableLink { link }) => assert_eq!(link, "http://127.0.0.1:1/"),
        _ => panic!("expected an unreachable-link failure"),
    }
}

#[test]
fn greedy_name_capture() {
    // The name may itself contain a bracket pair: the last `](` from
    // which a link still follows closes it.
    let t = parse_tool("* [a](b)](https://x.example) - d").unwrap();
    assert_eq!(t.name, "a](b)");
    assert_eq!(t.link, "https://x.example");
    assert_eq!(t.desc, "d");
}
