use kanshi::assemble::{build_changelog, ChangelogAssembler, SpaceJoinAssembler};
use kanshi::error::DoomError;
use kanshi::fit::limit_content_and_see_more;

fn owned(tracks: Vec<Vec<&str>>) -> Vec<Vec<String>> {
    tracks
        .into_iter()
        .map(|t| t.into_iter().map(|s| s.to_string()).collect())
        .collect()
}

fn changelog_components() -> Vec<Vec<String>> {
    owned(vec![
        vec!["# Changelog\n\nAll notable changes to the 'Kanshi' project will be documented in this file.\nThe format is based on [Keep a Changelog](https://keepachangelog.com/en/1.1.0/), and this project adheres to [Semantic Versioning](https://semver.org/spec/v2.0.0.html) as well as [Conventional Commits](https://www.conventionalcommits.org/en/v1.0.0/)."],
        vec![
            "## [Unreleased]\n\n### Added\n\n- Changelog Command with SemVer query support\n- Optimize Database queries by using a Connection Pool via `r2d2`\n- Registry of edited messages from when the bot wasn't online yet\n\n### Changed\n\n- Migrated from `rusqlite` to `diesel` for the sake of having a proper ORM\n\n### Fixed\n\n- Migrated from `dotenv` to `dotenvy` ([RUSTSEC-2021-0141](https://rustsec.org/advisories/RUSTSEC-2021-0141.html))\n- Patched [0.1.0] tag date.",
            "## [0.1.0] - 2024-09-19\n\n### Added\n\n- Discord message edit and deletion logging via Discord Bot and Embeds\n- Preservation of deleted messages within a SQLite Database\n- Console & File logging of Discord Events"
        ],
        vec!["[Unreleased]: https://github.com/QueenOfDoom/kanshi/compare/v0.1.0...HEAD", "[0.1.0]: https://github.com/QueenOfDoom/kanshi/releases/tag/v0.1.0"]
    ])
}

#[test]
fn test_limit_content_and_see_more() {
    let hello = limit_content_and_see_more(
        6,
        &owned(vec![vec!["Hello", "World"]]),
        &SpaceJoinAssembler,
        None,
    )
    .unwrap();

    assert_eq!("Hello", hello);

    let changelog_components = changelog_components();
    let changelog_url = Some((
        "https://github.com/QueenOfDoom/kanshi/blob/master/CHANGELOG.md",
        2,
    ));

    let tiny_changelog = limit_content_and_see_more(
        256,
        &changelog_components,
        &ChangelogAssembler,
        changelog_url,
    );
    assert!(tiny_changelog.is_ok());
    assert_eq!(tiny_changelog.unwrap().len(), 82);

    let changelog = limit_content_and_see_more(
        1024,
        &changelog_components,
        &ChangelogAssembler,
        changelog_url,
    );
    assert!(changelog.is_ok());
    assert_eq!(changelog.unwrap().len(), 945);

    let full_changelog = limit_content_and_see_more(
        4096,
        &changelog_components,
        &ChangelogAssembler,
        changelog_url,
    );
    assert!(full_changelog.is_ok());
    assert_eq!(full_changelog.unwrap().len(), 1144);
}

#[test]
fn fit_result_stays_within_budget() {
    for budget in [0usize, 1, 5, 6, 10, 11, 20] {
        let r = limit_content_and_see_more(
            budget,
            &owned(vec![vec!["Hello", "World"]]),
            &SpaceJoinAssembler,
            None,
        )
        .unwrap();
        assert!(r.len() <= budget);
    }
}

#[test]
fn fit_growth_is_monotonic_in_budget() {
    let tracks = owned(vec![vec!["aa", "bb", "cc", "dd"]]);
    let mut previous_len = 0usize;
    for budget in [0usize, 2, 5, 8, 11, 14, 100] {
        let r = limit_content_and_see_more(budget, &tracks, &SpaceJoinAssembler, None).unwrap();
        assert!(r.len() >= previous_len);
        previous_len = r.len();
    }
}

#[test]
fn fit_returns_full_assembly_when_it_fits() {
    let tracks = owned(vec![
        vec!["head"],
        vec!["one", "two"],
        vec!["[a]: x", "[b]: y"],
    ]);
    let full = build_changelog(&tracks);
    let r = limit_content_and_see_more(
        4096,
        &tracks,
        &ChangelogAssembler,
        Some(("https://example.invalid/log", 1)),
    )
    .unwrap();
    assert_eq!(r, full);
    assert_eq!(r, "head\n\none\n\ntwo\n\n[a]: x\n[b]: y");
}

#[test]
fn marker_appears_exactly_when_content_is_cut() {
    let tracks = changelog_components();
    let url = Some((
        "https://github.com/QueenOfDoom/kanshi/blob/master/CHANGELOG.md",
        2,
    ));
    let cut = limit_content_and_see_more(1024, &tracks, &ChangelogAssembler, url).unwrap();
    assert!(cut.contains("[... See more](https://github.com/QueenOfDoom/kanshi/blob/master/CHANGELOG.md)"));
    let whole = limit_content_and_see_more(4096, &tracks, &ChangelogAssembler, url).unwrap();
    assert!(!whole.contains("[... See more]("));
}

#[test]
fn fit_fails_when_no_room_is_left_for_the_marker() {
    let tracks = owned(vec![vec!["0123456789", "0123456789"]]);
    // Level 1 fits in 10, level 2 does not; the marker alone is longer than
    // what the budget leaves free.
    let r = limit_content_and_see_more(
        10,
        &tracks,
        &SpaceJoinAssembler,
        Some(("https://example.invalid/a-very-long-link-target", 0)),
    );
    match r {
        Err(DoomError::NotImplementedError { functionality }) => {
            assert_eq!(functionality, "Handling of Insufficient Space for Link");
        }
        _ => panic!("expected the insufficient-space error"),
    }
}

#[test]
fn empty_tracks_render_to_nothing() {
    let r = limit_content_and_see_more(
        100,
        &Vec::new(),
        &ChangelogAssembler,
        None,
    )
    .unwrap();
    assert_eq!(r, "");
}
