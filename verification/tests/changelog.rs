use kanshi::discord::construct_msg_ref;
use kanshi::error::DoomError;
use kanshi::filter::filter;
use kanshi::parse::parse;
use kanshi::render::render_changelog;

fn sample_doc() -> String {
    [
        "# Changelog",
        "",
        "All notable changes are recorded",
        "in this file.",
        "",
        "## [Unreleased]",
        "",
        "- pending work",
        "",
        "## [2.0.0] - 2024-03-01",
        "",
        "- breaking change",
        "",
        "## [1.5.0] - 2024-01-15",
        "",
        "- middle release",
        "",
        "## [1.0.0] - 2023-11-02",
        "",
        "- first release",
        "",
        "[Unreleased]: https://example.invalid/compare/v2.0.0...HEAD",
        "[2.0.0]: https://example.invalid/releases/tag/v2.0.0",
        "[1.5.0]: https://example.invalid/releases/tag/v1.5.0",
        "[1.0.0]: https://example.invalid/releases/tag/v1.0.0",
    ]
    .join("\n")
}

#[test]
fn parse_resolves_unreleased_and_orders_descending() {
    let doc = parse(&sample_doc()).unwrap();
    let versions: Vec<(u64, u64, u64)> = doc
        .entries
        .iter()
        .map(|e| (e.version.major, e.version.minor, e.version.patch))
        .collect();
    assert_eq!(versions, vec![(2, 1, 0), (2, 0, 0), (1, 5, 0), (1, 0, 0)]);
    assert!(doc.entries[0].section.starts_with("## [Unreleased]"));
    assert!(doc.entries[1].section.starts_with("## [2.0.0]"));
    assert_eq!(doc.entries[3].section, "## [1.0.0] - 2023-11-02\n\n- first release");
}

#[test]
fn parse_normalizes_the_header() {
    let doc = parse(&sample_doc()).unwrap();
    assert_eq!(
        doc.header,
        "# Changelog\n\nAll notable changes are recorded in this file."
    );
}

#[test]
fn parse_collects_footnote_lines() {
    let doc = parse(&sample_doc()).unwrap();
    assert_eq!(doc.footnotes.len(), 4);
    assert_eq!(
        doc.footnotes[0],
        "[Unreleased]: https://example.invalid/compare/v2.0.0...HEAD"
    );
    assert_eq!(
        doc.footnotes[3],
        "[1.0.0]: https://example.invalid/releases/tag/v1.0.0"
    );
}

#[test]
fn parse_sorts_out_of_order_sections() {
    let doc = "# T\n\n## [1.5.0] - b\n\n- b\n\n## [2.0.0] - c\n\n- c\n\n## [1.0.0] - a\n\n- a\n\n[1.5.0]: https://example.invalid/v1.5.0\n";
    let parsed = parse(doc).unwrap();
    let versions: Vec<(u64, u64, u64)> = parsed
        .entries
        .iter()
        .map(|e| (e.version.major, e.version.minor, e.version.patch))
        .collect();
    assert_eq!(versions, vec![(2, 0, 0), (1, 5, 0), (1, 0, 0)]);
}

#[test]
fn parse_orders_a_prerelease_below_its_release() {
    let doc = "# T\n\n## [1.0.0-alpha] - a\n\n- a\n\n## [1.0.0] - r\n\n- r\n\n[1.0.0-alpha]: https://example.invalid/v1.0.0-alpha\n";
    let parsed = parse(doc).unwrap();
    assert_eq!(parsed.entries[0].version.raw, "1.0.0");
    assert_eq!(parsed.entries[1].version.raw, "1.0.0-alpha");
    assert_eq!(parsed.entries[1].version.pre, "alpha");
}

#[test]
fn parse_rejects_a_document_without_sections() {
    assert!(matches!(parse(""), Err(DoomError::MalformedDocument)));
    assert!(matches!(
        parse("# Just a title\n\nwith prose but no sections\n"),
        Err(DoomError::MalformedDocument)
    ));
}

#[test]
fn parse_rejects_a_document_without_the_latest_footnote() {
    let doc = "# T\n\n## [1.0.0] - 2024-01-01\n\n- something\n";
    assert!(matches!(parse(doc), Err(DoomError::MalformedDocument)));
}

#[test]
fn parse_rejects_an_unparsable_version_label() {
    let doc = "# T\n\n## [one.two] - x\n\n- a\n\n[one.two]: https://example.invalid/x\n";
    assert!(matches!(parse(doc), Err(DoomError::MalformedDocument)));
}

#[test]
fn parse_rejects_a_duplicate_version() {
    let doc = "# T\n\n## [1.0.0] - 2024-02-01\n\n- again\n\n## [1.0.0] - 2024-01-01\n\n- first\n\n[1.0.0]: https://example.invalid/releases/tag/v1.0.0\n";
    assert!(matches!(parse(doc), Err(DoomError::DuplicateVersion)));
}

#[test]
fn filter_keeps_versions_inside_the_range() {
    let doc = parse(&sample_doc()).unwrap();
    let (sections, footnotes) = filter(&doc, ">=1.0.0, <2.0.0").unwrap();
    assert_eq!(sections.len(), 2);
    assert!(sections[0].starts_with("## [1.5.0]"));
    assert!(sections[1].starts_with("## [1.0.0]"));
    assert_eq!(
        footnotes,
        vec![
            "[1.5.0]: https://example.invalid/releases/tag/v1.5.0".to_string(),
            "[1.0.0]: https://example.invalid/releases/tag/v1.0.0".to_string(),
        ]
    );
}

#[test]
fn filter_strips_a_leading_v() {
    let doc = parse(&sample_doc()).unwrap();
    let (sections, _) = filter(&doc, "v1.5.0").unwrap();
    assert_eq!(sections.len(), 1);
    assert!(sections[0].starts_with("## [1.5.0]"));
}

#[test]
fn filter_rejects_an_invalid_range() {
    let doc = parse(&sample_doc()).unwrap();
    match filter(&doc, "not-a-range") {
        Err(DoomError::RangeParseError { input, reason }) => {
            assert_eq!(input, "not-a-range");
            assert!(!reason.is_empty());
        }
        _ => panic!("expected a range parse error"),
    }
}

#[test]
fn filter_matches_nothing_without_error() {
    let doc = parse(&sample_doc()).unwrap();
    let (sections, footnotes) = filter(&doc, ">=9.0.0").unwrap();
    assert!(sections.is_empty());
    assert!(footnotes.is_empty());
}

#[test]
fn render_produces_a_bounded_message() {
    let text = sample_doc();
    let url = "https://example.invalid/CHANGELOG.md";
    let body = render_changelog(&text, None, 4096, url).unwrap();
    assert!(body.len() <= 4096);
    assert!(body.starts_with("# Changelog\n\nAll notable changes"));
    assert!(body.contains("## [1.0.0] - 2023-11-02"));
    assert!(!body.contains("[... See more]("));

    let cut = render_changelog(&text, None, 128, url).unwrap();
    assert!(cut.len() <= 128);
    assert!(cut.contains("[... See more](https://example.invalid/CHANGELOG.md)"));
}

#[test]
fn render_reports_no_match() {
    let text = sample_doc();
    let body = render_changelog(&text, Some(">=9.0.0"), 4096, "https://example.invalid/c").unwrap();
    assert_eq!(
        body,
        ":mag_right: Version Requirement didn't match any existing version."
    );
}

#[test]
fn render_passes_range_errors_through() {
    let text = sample_doc();
    let r = render_changelog(&text, Some("not-a-range"), 4096, "https://example.invalid/c");
    assert!(matches!(r, Err(DoomError::RangeParseError { .. })));
}

#[test]
fn parse_handles_crlf_line_endings() {
    let doc = "# Title\r\nwrapped line\r\n\r\n## [0.1.0] - a\r\n\r\n- first\r\n\r\n[0.1.0]: https://example.invalid/v0.1.0\r\n";
    let parsed = parse(doc).unwrap();
    assert_eq!(parsed.header, "# Title wrapped line");
    assert_eq!(parsed.entries.len(), 1);
    assert_eq!(parsed.entries[0].version.raw, "0.1.0");
    assert_eq!(
        parsed.footnotes,
        vec!["[0.1.0]: https://example.invalid/v0.1.0".to_string()]
    );
}

#[test]
fn render_fails_when_the_marker_cannot_fit() {
    let text = sample_doc();
    let r = render_changelog(&text, None, 3, "https://example.invalid/CHANGELOG.md");
    assert!(matches!(r, Err(DoomError::NotImplementedError { .. })));
}

#[test]
fn error_messages_describe_the_error() {
    let e = DoomError::NotImplementedError {
        functionality: "Handling of Insufficient Space for Link".to_string(),
    };
    assert_eq!(
        e.message(),
        "This functionality 'Handling of Insufficient Space for Link' is not implemented."
    );
}

#[test]
fn message_reference_links_use_all_three_identifiers() {
    assert_eq!(
        construct_msg_ref(1, 2, 3),
        "https://discord.com/channels/1/2/3"
    );
    assert_eq!(
        construct_msg_ref(102735584861519872, 918101936915499292, 918122217256161320),
        "https://discord.com/channels/102735584861519872/918101936915499292/918122217256161320"
    );
}
