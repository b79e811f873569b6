//! The general laws of the content fitter, stated and proved once for every
//! assembler, with the changelog assembler's instances beside them.

use vstd::prelude::*;
use crate::assemble::{
    changelog_assembly, join, lemma_join_contains_last, lemma_track_prefix_join_len, track_at,
    ChangelogAssembler,
};
use crate::fit::{
    accepted_level, accepted_tracks, all_included, fits, included_count, lemma_grow_from_all_fit,
    lemma_grow_from_monotonic, lemma_grow_from_props, lemma_prefix_full, marker_text,
    prefix_tracks, spec_fit, track_prefix, with_marker, Assembler,
};

verus! {

/// Whether `sub` occurs inside `s`.
pub open spec fn contains_seq(s: Seq<char>, sub: Seq<char>) -> bool {
    exists|i: int| 0 <= i && i + sub.len() <= s.len() && #[trigger] s.subrange(i, i + sub.len())
        == sub
}

pub proof fn lemma_contains_self(s: Seq<char>)
    ensures
        contains_seq(s, s),
{
    assert(0 + s.len() <= s.len());
    assert(s.subrange(0, 0 + s.len() as int) =~= s);
}

pub proof fn lemma_contains_concat_left(a: Seq<char>, b: Seq<char>, sub: Seq<char>)
    requires
        contains_seq(a, sub),
    ensures
        contains_seq(a + b, sub),
{
    let i = choose|i: int|
        0 <= i && i + sub.len() <= a.len() && #[trigger] a.subrange(i, i + sub.len()) == sub;
    assert((a + b).subrange(i, i + sub.len()) =~= a.subrange(i, i + sub.len()));
}

pub proof fn lemma_contains_concat_right(a: Seq<char>, b: Seq<char>, sub: Seq<char>)
    requires
        contains_seq(b, sub),
    ensures
        contains_seq(a + b, sub),
{
    let i = choose|i: int|
        0 <= i && i + sub.len() <= b.len() && #[trigger] b.subrange(i, i + sub.len()) == sub;
    assert((a + b).subrange(a.len() + i, a.len() + i + sub.len()) =~= b.subrange(
        i,
        i + sub.len(),
    ));
}

/// Fit bound: whenever the fitter answers without inserting a marker — the
/// link is absent or nothing was cut — the answer fits in the budget, for
/// every assembler that renders the empty track list to the empty string.
pub proof fn lemma_fit_within_budget<A: Assembler>(
    a: &A,
    limit: int,
    ts: Seq<Seq<Seq<char>>>,
    link: Option<(Seq<char>, int)>,
)
    requires
        0 <= limit,
        a.spec_assemble(Seq::<Seq<Seq<char>>>::empty()).len() == 0,
        link is None || all_included(accepted_tracks(a, ts, limit), ts),
    ensures
        spec_fit(a, limit, ts, link) == Ok::<Seq<char>, ()>(
            a.spec_assemble(accepted_tracks(a, ts, limit)),
        ),
        a.spec_assemble(accepted_tracks(a, ts, limit)).len() <= limit,
{
    lemma_grow_from_props(a, ts, limit, 1);
}

/// Fit bound for the changelog assembler: whenever the fitter answers
/// without inserting a marker, the answer fits in the budget.
pub proof fn lemma_changelog_fit_within_budget(
    limit: int,
    ts: Seq<Seq<Seq<char>>>,
    link: Option<(Seq<char>, int)>,
)
    requires
        0 <= limit,
        link is None || all_included(accepted_tracks(&ChangelogAssembler, ts, limit), ts),
    ensures
        spec_fit(&ChangelogAssembler, limit, ts, link) == Ok::<Seq<char>, ()>(
            changelog_assembly(accepted_tracks(&ChangelogAssembler, ts, limit)),
        ),
        changelog_assembly(accepted_tracks(&ChangelogAssembler, ts, limit)).len() <= limit,
{
    let a = ChangelogAssembler;
    assert(a.spec_assemble(Seq::<Seq<Seq<char>>>::empty()).len() == 0);
    lemma_fit_within_budget(&a, limit, ts, link);
}

/// Monotonic content growth: a larger budget never shrinks the accepted
/// level, nor the number of items of any track that the accepted candidate
/// includes.
pub proof fn lemma_fit_monotonic<A: Assembler>(
    a: &A,
    ts: Seq<Seq<Seq<char>>>,
    limit1: int,
    limit2: int,
)
    requires
        limit1 <= limit2,
    ensures
        accepted_level(a, ts, limit1) <= accepted_level(a, ts, limit2),
        forall|i: int|
            0 <= i < ts.len() ==> #[trigger] included_count(a, ts, limit1, i) <= included_count(
                a,
                ts,
                limit2,
                i,
            ),
{
    lemma_grow_from_monotonic(a, ts, limit1, limit2, 1);
    lemma_grow_from_props(a, ts, limit1, 1);
}

/// Completeness: when every level's candidate fits the budget, the fitter
/// returns the full assembly of all tracks, untouched by any marker.
pub proof fn lemma_fit_complete<A: Assembler>(
    a: &A,
    limit: int,
    ts: Seq<Seq<Seq<char>>>,
    link: Option<(Seq<char>, int)>,
)
    requires
        forall|k: int| 1 <= k ==> #[trigger] fits(a, ts, limit, k),
    ensures
        all_included(accepted_tracks(a, ts, limit), ts),
        spec_fit(a, limit, ts, link) == Ok::<Seq<char>, ()>(a.spec_assemble(ts)),
{
    lemma_grow_from_all_fit(a, ts, limit, 1);
    let l = accepted_level(a, ts, limit);
    lemma_prefix_full(ts, l);
}

/// Completeness for the changelog assembler: when the full assembly fits the
/// budget, the fitter returns exactly the full assembly.
pub proof fn lemma_changelog_fit_complete(
    limit: int,
    ts: Seq<Seq<Seq<char>>>,
    link: Option<(Seq<char>, int)>,
)
    requires
        changelog_assembly(ts).len() <= limit,
    ensures
        all_included(accepted_tracks(&ChangelogAssembler, ts, limit), ts),
        spec_fit(&ChangelogAssembler, limit, ts, link) == Ok::<Seq<char>, ()>(
            changelog_assembly(ts),
        ),
{
    let a = ChangelogAssembler;
    assert forall|k: int| 1 <= k implies #[trigger] fits(&a, ts, limit, k) by {
        lemma_changelog_prefix_len(ts, k);
    }
    lemma_fit_complete(&a, limit, ts, link);
}

/// Cutting every track to a level never makes the changelog assembly longer.
proof fn lemma_changelog_prefix_len(ts: Seq<Seq<Seq<char>>>, level: int)
    requires
        1 <= level,
    ensures
        changelog_assembly(prefix_tracks(ts, level)).len() <= changelog_assembly(ts).len(),
{
    let ps = prefix_tracks(ts, level);
    if ts.len() == 0 {
        assert(ps =~= Seq::<Seq<Seq<char>>>::empty());
    } else {
        assert(track_at(ps, 0) == track_prefix(track_at(ts, 0), level));
        assert(track_at(ps, 1) == if 1 < ts.len() {
            track_prefix(track_at(ts, 1), level)
        } else {
            track_at(ts, 1)
        });
        assert(track_at(ps, 2) == if 2 < ts.len() {
            track_prefix(track_at(ts, 2), level)
        } else {
            track_at(ts, 2)
        });
        lemma_track_prefix_join_len(track_at(ts, 0), " "@, level);
        lemma_track_prefix_join_len(track_at(ts, 1), "\n\n"@, level);
        lemma_track_prefix_join_len(track_at(ts, 2), "\n"@, level);
    }
}

/// Marker exclusivity, forward direction: whenever the fitter cut content and
/// answered with a marker inserted at one of the changelog assembler's three
/// track positions, the marker text occurs in the answer.
pub proof fn lemma_marker_present(
    limit: int,
    ts: Seq<Seq<Seq<char>>>,
    url: Seq<char>,
    pos: int,
)
    requires
        0 <= pos <= 2,
        !all_included(accepted_tracks(&ChangelogAssembler, ts, limit), ts),
        spec_fit(&ChangelogAssembler, limit, ts, Some((url, pos))) is Ok,
    ensures
        spec_fit(&ChangelogAssembler, limit, ts, Some((url, pos))) == Ok::<Seq<char>, ()>(
            changelog_assembly(
                with_marker(accepted_tracks(&ChangelogAssembler, ts, limit), pos, marker_text(url)),
            ),
        ),
        contains_seq(
            changelog_assembly(
                with_marker(accepted_tracks(&ChangelogAssembler, ts, limit), pos, marker_text(url)),
            ),
            marker_text(url),
        ),
{
    let a = ChangelogAssembler;
    let cs = accepted_tracks(&a, ts, limit);
    let href = marker_text(url);
    let m = with_marker(cs, pos, href);
    assert(m.len() >= 1);
    // The track at `pos` holds the marker as its last item.
    if pos < cs.len() {
        assert(m[pos] == cs[pos].push(href));
    } else {
        assert(m[pos] =~= seq![href]);
    }
    assert(track_at(m, pos).len() >= 1 && track_at(m, pos).last() == href);
    let j0 = join(track_at(m, 0), " "@);
    let j1 = join(track_at(m, 1), "\n\n"@);
    let j2 = join(track_at(m, 2), "\n"@);
    let sep = "\n\n"@;
    assert(changelog_assembly(m) == j0 + sep + j1 + sep + j2);
    if pos == 0 {
        lemma_join_contains_last(track_at(m, 0), " "@);
        lemma_contains_concat_left(j0, sep, href);
        lemma_contains_concat_left(j0 + sep, j1, href);
        lemma_contains_concat_left(j0 + sep + j1, sep, href);
        lemma_contains_concat_left(j0 + sep + j1 + sep, j2, href);
    } else if pos == 1 {
        lemma_join_contains_last(track_at(m, 1), "\n\n"@);
        lemma_contains_concat_right(j0 + sep, j1, href);
        lemma_contains_concat_left(j0 + sep + j1, sep, href);
        lemma_contains_concat_left(j0 + sep + j1 + sep, j2, href);
    } else {
        lemma_join_contains_last(track_at(m, 2), "\n"@);
        lemma_contains_concat_right(j0 + sep + j1 + sep, j2, href);
    }
}

/// Marker exclusivity, reverse direction: whenever nothing was cut and the
/// content's own full assembly does not hold the marker text, the fitter's
/// answer does not hold it either.
pub proof fn lemma_marker_absent<A: Assembler>(
    a: &A,
    limit: int,
    ts: Seq<Seq<Seq<char>>>,
    url: Seq<char>,
    pos: int,
)
    requires
        all_included(accepted_tracks(a, ts, limit), ts),
        !contains_seq(a.spec_assemble(ts), marker_text(url)),
    ensures
        spec_fit(a, limit, ts, Some((url, pos))) matches Ok(s) && !contains_seq(
            s,
            marker_text(url),
        ),
{
    lemma_no_truncation_keeps_document(a, limit, ts, Some((url, pos)));
}

/// Whenever nothing was cut, the fitter's answer is the content's own full
/// assembly, whatever the link argument.
pub proof fn lemma_no_truncation_keeps_document<A: Assembler>(
    a: &A,
    limit: int,
    ts: Seq<Seq<Seq<char>>>,
    link: Option<(Seq<char>, int)>,
)
    requires
        all_included(accepted_tracks(a, ts, limit), ts),
    ensures
        spec_fit(a, limit, ts, link) == Ok::<Seq<char>, ()>(a.spec_assemble(ts)),
{
    let cs = accepted_tracks(a, ts, limit);
    let l = accepted_level(a, ts, limit);
    lemma_grow_from_props(a, ts, limit, 1);
    if l == 0 {
        assert(cs =~= ts);
    } else {
        assert forall|i: int| 0 <= i < ts.len() implies cs[i] == ts[i] by {
            assert(cs[i] == track_prefix(ts[i], l));
            if ts[i].len() > l {
                assert(cs[i].len() == l);
            }
        }
        assert(cs =~= ts);
    }
}

} // verus!
