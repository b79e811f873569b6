//! The whole render pipeline as one pure function: parse the document,
//! filter by an optional version range, and fit the tracks into the budget
//! with a truncation marker pointing at the full changelog.

use vstd::prelude::*;
use vstd::string::*;
use crate::assemble::ChangelogAssembler;
use crate::error::DoomError;
use crate::filter::{filter, spec_filter, strip_v};
use crate::fit::{item_views, limit_content_and_see_more, spec_fit, tracks_view};
use crate::parse::{entry_views, parse, spec_parse, ChangelogDoc, ChangelogEntry, SpecParse};
use crate::version::{req_err_text, req_ok};

verus! {

/// The outcome of a render.
pub enum RenderOut {
    /// The message body to show.
    Message(Seq<char>),
    /// The document lacks an anchor or a resolvable label.
    Malformed,
    /// The same version heads two sections.
    Duplicate,
    /// The range expression does not parse.
    BadRange { input: Seq<char>, reason: Seq<char> },
    /// Content was cut and the budget leaves no room for the marker.
    NoRoom,
}

/// The reply for a range no version satisfies.
pub open spec fn no_match_text() -> Seq<char> {
    ":mag_right: Version Requirement didn't match any existing version."@
}

/// The section texts of the entries, in entry order.
pub open spec fn sections_of(
    entries: Seq<((u64, u64, u64, Seq<char>, Seq<char>), Seq<char>)>,
) -> Seq<Seq<char>> {
    entries.map_values(|e: ((u64, u64, u64, Seq<char>, Seq<char>), Seq<char>)| e.1)
}

/// The three tracks handed to the fitter: header, sections, footnotes.
pub open spec fn fit_tracks(
    header: Seq<char>,
    secs: Seq<Seq<char>>,
    notes: Seq<Seq<char>>,
) -> Seq<Seq<Seq<char>>> {
    seq![seq![header], secs, notes]
}

/// What fitting the tracks yields: the fitted message, with the marker
/// inserted into the sections track where content was cut, or no room.
pub open spec fn fit_outcome(limit: int, ts: Seq<Seq<Seq<char>>>, url: Seq<char>) -> RenderOut {
    match spec_fit(&ChangelogAssembler, limit, ts, Some((url, 1))) {
        Ok(msg) => RenderOut::Message(msg),
        Err(_) => RenderOut::NoRoom,
    }
}

/// The view of an optional query argument.
pub open spec fn query_view(query: Option<&str>) -> Option<Seq<char>> {
    match query {
        None => None,
        Some(q) => Some(q@),
    }
}

/// The whole render of a changelog: parse, filter when a query is given,
/// and fit into the budget.
pub open spec fn spec_render(
    s: Seq<char>,
    query: Option<Seq<char>>,
    limit: int,
    url: Seq<char>,
) -> RenderOut {
    match spec_parse(s) {
        SpecParse::Malformed => RenderOut::Malformed,
        SpecParse::Duplicate => RenderOut::Duplicate,
        SpecParse::Parsed { header, entries, footnotes } => match query {
            None => fit_outcome(limit, fit_tracks(header, sections_of(entries), footnotes), url),
            Some(qraw) => {
                let q = strip_v(qraw);
                if !req_ok(q) {
                    RenderOut::BadRange { input: q, reason: req_err_text(q) }
                } else {
                    let kept = spec_filter(entries, footnotes, q);
                    if kept.0.len() == 0 {
                        RenderOut::Message(no_match_text())
                    } else {
                        fit_outcome(limit, fit_tracks(header, kept.0, kept.1), url)
                    }
                }
            },
        },
    }
}

fn sections_from(entries: &Vec<ChangelogEntry>) -> (r: Vec<String>)
    ensures
        item_views(r) == sections_of(entry_views(*entries)),
{
    let mut r: Vec<String> = Vec::new();
    let mut i: usize = 0;
    while i < entries.len()
        invariant
            i <= entries@.len(),
            r@.len() == i,
            forall|k: int| 0 <= k < i ==> #[trigger] r@[k]@ == entries@[k].section@,
        decreases entries@.len() - i,
    {
        r.push(entries[i].section.clone());
        i += 1;
    }
    proof {
        assert(item_views(r) =~= sections_of(entry_views(*entries)));
    }
    r
}

/// Render a changelog document into one message of at most `limit`
/// characters, selecting the sections a version-range query keeps when one
/// is given. Where content is cut, a `[... See more](url)` marker is
/// appended to the sections track; where the budget leaves no room even for
/// the marker, the call fails rather than emit a broken message. A query no
/// version satisfies yields the no-match reply, not an error.
pub fn render_changelog(text: &str, query: Option<&str>, limit: usize, url: &str) -> (r: Result<
    String,
    DoomError,
>)
    ensures
        ({
            let model = spec_render(text@, query_view(query), limit as int, url@);
            match r {
                Ok(s) => model == RenderOut::Message(s@),
                Err(e) => match e {
                    DoomError::MalformedDocument => model matches RenderOut::Malformed,
                    DoomError::DuplicateVersion => model matches RenderOut::Duplicate,
                    DoomError::RangeParseError { input, reason } => model == (RenderOut::BadRange {
                        input: input@,
                        reason: reason@,
                    }),
                    DoomError::NotImplementedError { functionality } => model matches
                        RenderOut::NoRoom && functionality@
                        == "Handling of Insufficient Space for Link"@,
                },
            }
        }),
{
    let doc = match parse(text) {
        Ok(d) => d,
        Err(e) => {
            return Err(e);
        },
    };
    let merger = ChangelogAssembler;
    match query {
        None => {
            let ghost hv = doc.header@;
            let ghost ev = entry_views(doc.entries);
            let ghost nv = item_views(doc.footnotes);
            let secs = sections_from(&doc.entries);
            let ChangelogDoc { header, entries: _, footnotes } = doc;
            let mut header_track: Vec<String> = Vec::new();
            header_track.push(header);
            let mut tracks: Vec<Vec<String>> = Vec::new();
            tracks.push(header_track);
            tracks.push(secs);
            tracks.push(footnotes);
            proof {
                assert(tracks_view(&tracks) =~~= fit_tracks(hv, sections_of(ev), nv));
            }
            limit_content_and_see_more(limit, &tracks, &merger, Some((url, 1)))
        },
        Some(q) => {
            let kept = match filter(&doc, q) {
                Ok(p) => p,
                Err(e) => {
                    return Err(e);
                },
            };
            let (secs, notes) = kept;
            if secs.len() == 0 {
                return Ok(
                    String::from_str(
                        ":mag_right: Version Requirement didn't match any existing version.",
                    ),
                );
            }
            let ghost hv = doc.header@;
            let ghost sv = item_views(secs);
            let ghost nv = item_views(notes);
            let ChangelogDoc { header, entries: _, footnotes: _ } = doc;
            let mut header_track: Vec<String> = Vec::new();
            header_track.push(header);
            let mut tracks: Vec<Vec<String>> = Vec::new();
            tracks.push(header_track);
            tracks.push(secs);
            tracks.push(notes);
            proof {
                assert(tracks_view(&tracks) =~~= fit_tracks(hv, sv, nv));
            }
            limit_content_and_see_more(limit, &tracks, &merger, Some((url, 1)))
        },
    }
}

} // verus!
