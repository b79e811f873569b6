//! The content fitter: given tracks of text items and a character budget,
//! find the largest uniform prefix length (the "level") across all tracks
//! whose assembled rendering stays within the budget, and append a truncation
//! marker when content had to be cut.

use vstd::prelude::*;
use vstd::string::*;
use crate::error::DoomError;

verus! {

/// The character-sequence view of one track.
pub open spec fn item_views(t: Vec<String>) -> Seq<Seq<char>> {
    t@.map_values(|s: String| s@)
}

/// The character-sequence view of a set of tracks.
pub open spec fn tracks_view(tracks: &Vec<Vec<String>>) -> Seq<Seq<Seq<char>>> {
    tracks@.map_values(|t: Vec<String>| item_views(t))
}

/// The prefix of one track at a level: the first `level` items, or the whole
/// track if it is shorter.
pub open spec fn track_prefix(t: Seq<Seq<char>>, level: int) -> Seq<Seq<char>> {
    if t.len() <= level {
        t
    } else {
        t.take(level)
    }
}

/// Every track cut down to the given level.
pub open spec fn prefix_tracks(ts: Seq<Seq<Seq<char>>>, level: int) -> Seq<Seq<Seq<char>>> {
    ts.map_values(|t: Seq<Seq<char>>| track_prefix(t, level))
}

/// The length of the longest track.
pub open spec fn max_track_len(ts: Seq<Seq<Seq<char>>>) -> int
    decreases ts.len(),
{
    if ts.len() == 0 {
        0
    } else {
        let rest = max_track_len(ts.drop_first());
        if ts[0].len() > rest {
            ts[0].len() as int
        } else {
            rest
        }
    }
}

pub proof fn lemma_max_track_len_ge(ts: Seq<Seq<Seq<char>>>, i: int)
    requires
        0 <= i < ts.len(),
    ensures
        ts[i].len() <= max_track_len(ts),
    decreases ts.len(),
{
    if i > 0 {
        lemma_max_track_len_ge(ts.drop_first(), i - 1);
    }
}

/// A level is complete when every track is shorter than it, so that every
/// track's prefix at this level is already the whole track.
pub open spec fn complete_at(ts: Seq<Seq<Seq<char>>>, level: int) -> bool {
    forall|i: int| 0 <= i < ts.len() ==> ts[i].len() < level
}

/// The strategy that merges tracks into one message.
pub trait Assembler {
    /// The mathematical meaning of `assemble`.
    spec fn spec_assemble(&self, ts: Seq<Seq<Seq<char>>>) -> Seq<char>;

    /// Merge the tracks into one string.
    fn assemble(&self, tracks: &Vec<Vec<String>>) -> (r: String)
        ensures
            r@ == self.spec_assemble(tracks_view(tracks)),
    ;
}

/// Whether the candidate at a level fits in the budget.
pub open spec fn fits<A: Assembler>(a: &A, ts: Seq<Seq<Seq<char>>>, limit: int, level: int) -> bool {
    a.spec_assemble(prefix_tracks(ts, level)).len() <= limit
}

/// The level the growth loop accepts when it starts at `level`: it scans
/// upward while the candidate fits and some track still has items beyond the
/// level, and falls back to the previous level on the first candidate that
/// does not fit.
pub open spec fn grow_from<A: Assembler>(
    a: &A,
    ts: Seq<Seq<Seq<char>>>,
    limit: int,
    level: int,
) -> int
    decreases max_track_len(ts) + 1 - level,
        via grow_from_decreases::<A>
{
    if !fits(a, ts, limit, level) {
        level - 1
    } else if complete_at(ts, level) {
        level
    } else {
        grow_from(a, ts, limit, level + 1)
    }
}

#[via_fn]
proof fn grow_from_decreases<A: Assembler>(a: &A, ts: Seq<Seq<Seq<char>>>, limit: int, level: int) {
    if fits(a, ts, limit, level) && !complete_at(ts, level) {
        let i = choose|i: int| 0 <= i < ts.len() && ts[i].len() >= level;
        lemma_max_track_len_ge(ts, i);
    }
}

/// The level accepted by the growth loop, which always starts at level 1.
/// Level 0 stands for "not even the level-1 candidate fits": the accepted
/// candidate is then the empty list of tracks.
pub open spec fn accepted_level<A: Assembler>(a: &A, ts: Seq<Seq<Seq<char>>>, limit: int) -> int {
    grow_from(a, ts, limit, 1)
}

/// The accepted candidate tracks.
pub open spec fn accepted_tracks<A: Assembler>(
    a: &A,
    ts: Seq<Seq<Seq<char>>>,
    limit: int,
) -> Seq<Seq<Seq<char>>> {
    let l = accepted_level(a, ts, limit);
    if l == 0 {
        Seq::empty()
    } else {
        prefix_tracks(ts, l)
    }
}

/// Whether the candidate includes every item of every track.
pub open spec fn all_included(cs: Seq<Seq<Seq<char>>>, ts: Seq<Seq<Seq<char>>>) -> bool {
    cs.len() == ts.len() && forall|i: int| 0 <= i < cs.len() ==> cs[i].len() == ts[i].len()
}

/// The truncation marker rendered for a link target.
pub open spec fn marker_text(url: Seq<char>) -> Seq<char> {
    "[... See more]("@ + url + ")"@
}

/// The candidate tracks with the marker appended to the track at `pos`,
/// padding with single-empty-item tracks so that the position is reachable.
pub open spec fn with_marker(cs: Seq<Seq<Seq<char>>>, pos: int, href: Seq<char>) -> Seq<Seq<Seq<char>>> {
    if pos < cs.len() {
        cs.update(pos, cs[pos].push(href))
    } else {
        cs + Seq::new((pos - cs.len()) as nat, |i: int| seq![Seq::<char>::empty()])
            + seq![seq![href]]
    }
}

/// The whole fitter, as a function: `Ok` carries the view of the returned
/// message, `Err(())` stands for the insufficient-space failure.
pub open spec fn spec_fit<A: Assembler>(
    a: &A,
    limit: int,
    ts: Seq<Seq<Seq<char>>>,
    link: Option<(Seq<char>, int)>,
) -> Result<Seq<char>, ()> {
    let cs = accepted_tracks(a, ts, limit);
    let msg = a.spec_assemble(cs);
    match link {
        None => Ok(msg),
        Some((url, pos)) => {
            if all_included(cs, ts) {
                Ok(msg)
            } else {
                let href = marker_text(url);
                if msg.len() + href.len() < limit {
                    Ok(a.spec_assemble(with_marker(cs, pos, href)))
                } else {
                    Err(())
                }
            }
        },
    }
}

/// How many items of the track at index `i` the accepted candidate includes.
pub open spec fn included_count<A: Assembler>(
    a: &A,
    ts: Seq<Seq<Seq<char>>>,
    limit: int,
    i: int,
) -> int {
    let l = accepted_level(a, ts, limit);
    if l <= 0 {
        0
    } else if ts[i].len() <= l {
        ts[i].len() as int
    } else {
        l
    }
}

/// The growth loop never falls below the level before its starting one, and
/// whatever level at or above the start it accepts, that level's candidate
/// fits the budget.
pub proof fn lemma_grow_from_props<A: Assembler>(
    a: &A,
    ts: Seq<Seq<Seq<char>>>,
    limit: int,
    l: int,
)
    requires
        1 <= l,
    ensures
        grow_from(a, ts, limit, l) >= l - 1,
        grow_from(a, ts, limit, l) >= l ==> fits(a, ts, limit, grow_from(a, ts, limit, l)),
    decreases max_track_len(ts) + 1 - l,
{
    if fits(a, ts, limit, l) && !complete_at(ts, l) {
        let w = choose|w: int| 0 <= w < ts.len() && ts[w].len() >= l;
        lemma_max_track_len_ge(ts, w);
        lemma_grow_from_props(a, ts, limit, l + 1);
    }
}

/// A larger budget never makes the growth loop accept a smaller level.
pub proof fn lemma_grow_from_monotonic<A: Assembler>(
    a: &A,
    ts: Seq<Seq<Seq<char>>>,
    limit1: int,
    limit2: int,
    l: int,
)
    requires
        1 <= l,
        limit1 <= limit2,
    ensures
        grow_from(a, ts, limit1, l) <= grow_from(a, ts, limit2, l),
    decreases max_track_len(ts) + 1 - l,
{
    if !fits(a, ts, limit1, l) {
        lemma_grow_from_props(a, ts, limit2, l);
    } else if !complete_at(ts, l) {
        let w = choose|w: int| 0 <= w < ts.len() && ts[w].len() >= l;
        lemma_max_track_len_ge(ts, w);
        lemma_grow_from_monotonic(a, ts, limit1, limit2, l + 1);
    }
}

/// When every level's candidate fits the budget, the growth loop stops at a
/// complete level.
pub proof fn lemma_grow_from_all_fit<A: Assembler>(
    a: &A,
    ts: Seq<Seq<Seq<char>>>,
    limit: int,
    l: int,
)
    requires
        1 <= l,
        forall|k: int| 1 <= k ==> #[trigger] fits(a, ts, limit, k),
    ensures
        grow_from(a, ts, limit, l) >= l,
        complete_at(ts, grow_from(a, ts, limit, l)),
    decreases max_track_len(ts) + 1 - l,
{
    assert(fits(a, ts, limit, l));
    if !complete_at(ts, l) {
        let w = choose|w: int| 0 <= w < ts.len() && ts[w].len() >= l;
        lemma_max_track_len_ge(ts, w);
        lemma_grow_from_all_fit(a, ts, limit, l + 1);
    }
}

/// At a level no track reaches, every track's prefix is the whole track.
pub proof fn lemma_prefix_full(ts: Seq<Seq<Seq<char>>>, l: int)
    requires
        forall|i: int| 0 <= i < ts.len() ==> ts[i].len() <= l,
    ensures
        prefix_tracks(ts, l) == ts,
{
    assert(prefix_tracks(ts, l) =~= ts);
}

/// The view of a link argument.
pub open spec fn spec_link(link: Option<(&str, usize)>) -> Option<(Seq<char>, int)> {
    match link {
        None => None,
        Some((url, pos)) => Some((url@, pos as int)),
    }
}

/// Padding tracks: `n` tracks of one empty item each.
pub open spec fn pad_tracks(n: int) -> Seq<Seq<Seq<char>>> {
    Seq::new(n as nat, |i: int| seq![Seq::<char>::empty()])
}

fn clone_prefix(track: &Vec<String>, n: usize) -> (r: Vec<String>)
    requires
        n <= track@.len(),
    ensures
        r@ == track@.subrange(0, n as int),
{
    let mut r: Vec<String> = Vec::new();
    let mut j: usize = 0;
    while j < n
        invariant
            j <= n,
            n <= track@.len(),
            r@ == track@.subrange(0, j as int),
        decreases n - j,
    {
        r.push(track[j].clone());
        proof {
            assert(track@.subrange(0, j + 1) =~= track@.subrange(0, j as int).push(track@[j as int]));
        }
        j += 1;
    }
    r
}

fn take_prefixes(components: &Vec<Vec<String>>, level: usize) -> (r: Vec<Vec<String>>)
    ensures
        tracks_view(&r) == prefix_tracks(tracks_view(components), level as int),
{
    let ghost ts = tracks_view(components);
    let mut r: Vec<Vec<String>> = Vec::new();
    let mut i: usize = 0;
    while i < components.len()
        invariant
            i <= components@.len(),
            ts == tracks_view(components),
            r@.len() == i,
            forall|k: int| 0 <= k < i ==> item_views(#[trigger] r@[k]) == track_prefix(
                ts[k],
                level as int,
            ),
        decreases components@.len() - i,
    {
        let track = &components[i];
        let n = if track.len() <= level {
            track.len()
        } else {
            level
        };
        let p = clone_prefix(track, n);
        proof {
            assert(ts[i as int] == item_views(components@[i as int]));
            assert(item_views(p) =~= track_prefix(ts[i as int], level as int));
        }
        r.push(p);
        i += 1;
    }
    proof {
        assert forall|k: int| 0 <= k < ts.len() implies tracks_view(&r)[k] == prefix_tracks(
            ts,
            level as int,
        )[k] by {
            assert(tracks_view(&r)[k] == item_views(r@[k]));
            assert(prefix_tracks(ts, level as int)[k] == track_prefix(ts[k], level as int));
        }
        assert(tracks_view(&r) =~= prefix_tracks(ts, level as int));
    }
    r
}

fn all_shorter(components: &Vec<Vec<String>>, level: usize) -> (b: bool)
    ensures
        b == complete_at(tracks_view(components), level as int),
        forall|k: int|
            0 <= k < tracks_view(components).len() ==> #[trigger] tracks_view(
                components,
            )[k].len() <= usize::MAX,
{
    let ghost ts = tracks_view(components);
    let mut i: usize = 0;
    let mut b = true;
    while i < components.len()
        invariant
            i <= components@.len(),
            ts == tracks_view(components),
            b == (forall|k: int| 0 <= k < i ==> ts[k].len() < level as int),
            forall|k: int| 0 <= k < i ==> #[trigger] ts[k].len() <= usize::MAX,
        decreases components@.len() - i,
    {
        let tlen = components[i].len();
        proof {
            assert(ts[i as int].len() == tlen as int);
        }
        if tlen >= level {
            b = false;
        }
        i += 1;
    }
    b
}

fn same_shape(cs: &Vec<Vec<String>>, components: &Vec<Vec<String>>) -> (b: bool)
    ensures
        b == all_included(tracks_view(cs), tracks_view(components)),
{
    let ghost vs = tracks_view(cs);
    let ghost ts = tracks_view(components);
    if cs.len() != components.len() {
        return false;
    }
    let mut i: usize = 0;
    let mut b = true;
    while i < cs.len()
        invariant
            i <= cs@.len(),
            cs@.len() == components@.len(),
            vs == tracks_view(cs),
            ts == tracks_view(components),
            b == (forall|k: int| 0 <= k < i ==> vs[k].len() == ts[k].len()),
        decreases cs@.len() - i,
    {
        proof {
            assert(vs[i as int] == item_views(cs@[i as int]));
            assert(ts[i as int] == item_views(components@[i as int]));
        }
        if cs[i].len() != components[i].len() {
            b = false;
        }
        i += 1;
    }
    b
}

fn grow_candidates<A: Assembler>(limit: usize, components: &Vec<Vec<String>>, builder: &A) -> (best:
    Vec<Vec<String>>)
    ensures
        tracks_view(&best) == accepted_tracks(builder, tracks_view(components), limit as int),
{
    let ghost ts = tracks_view(components);
    let ghost lim = limit as int;
    let mut best: Vec<Vec<String>> = Vec::new();
    let mut level: usize = 1;
    loop
        invariant
            1 <= level,
            ts == tracks_view(components),
            lim == limit as int,
            grow_from(builder, ts, lim, 1) == grow_from(builder, ts, lim, level as int),
            level == 1 ==> tracks_view(&best) == Seq::<Seq<Seq<char>>>::empty(),
            level > 1 ==> tracks_view(&best) == prefix_tracks(ts, level - 1),
        decreases max_track_len(ts) + 1 - level,
    {
        let cand = take_prefixes(components, level);
        let msg = builder.assemble(&cand);
        if msg.as_str().unicode_len() > limit {
            proof {
                assert(!fits(builder, ts, lim, level as int));
                assert(grow_from(builder, ts, lim, level as int) == level - 1);
            }
            return best;
        }
        let complete = all_shorter(components, level);
        best = cand;
        if complete {
            proof {
                assert(grow_from(builder, ts, lim, level as int) == level as int);
            }
            return best;
        }
        proof {
            assert(fits(builder, ts, lim, level as int));
            assert(grow_from(builder, ts, lim, level as int) == grow_from(
                builder,
                ts,
                lim,
                level + 1,
            ));
            let w = choose|w: int| 0 <= w < ts.len() && ts[w].len() >= level as int;
            lemma_max_track_len_ge(ts, w);
        }
        if level == usize::MAX {
            proof {
                assert(prefix_tracks(ts, level as int) =~~= prefix_tracks(ts, level + 1));
                assert(fits(builder, ts, lim, level + 1));
                assert(complete_at(ts, level + 1));
                assert(grow_from(builder, ts, lim, level + 1) == level + 1);
            }
            return best;
        }
        level = level + 1;
    }
}

fn marker_string(url: &str) -> (r: String)
    ensures
        r@ == marker_text(url@),
{
    let mut s = String::from_str("[... See more](");
    s.append(url);
    s.append(")");
    s
}

fn insert_marker(local: Vec<Vec<String>>, pos: usize, href: String) -> (r: Vec<Vec<String>>)
    ensures
        tracks_view(&r) == with_marker(tracks_view(&local), pos as int, href@),
{
    let ghost cs0 = tracks_view(&local);
    let mut local = local;
    while local.len() < pos
        invariant
            cs0 == tracks_view(&local).subrange(0, cs0.len() as int),
            cs0.len() <= local@.len(),
            local@.len() > cs0.len() ==> local@.len() <= pos,
            tracks_view(&local) =~~= cs0 + pad_tracks(local@.len() - cs0.len()),
        decreases pos - local@.len(),
    {
        let ghost prev = tracks_view(&local);
        let mut t: Vec<String> = Vec::new();
        t.push(String::new());
        local.push(t);
        proof {
            assert(item_views(t) =~= seq![Seq::<char>::empty()]);
            assert(forall|k: int|
                0 <= k < local@.len() - 1 ==> tracks_view(&local)[k] == item_views(local@[k]));
            assert(tracks_view(&local) =~= prev.push(item_views(t)));
            assert(tracks_view(&local) =~~= cs0 + pad_tracks(local@.len() - cs0.len()));
            assert(cs0 =~= tracks_view(&local).subrange(0, cs0.len() as int));
        }
    }
    if local.len() == pos {
        local.push(Vec::new());
        proof {
            assert(tracks_view(&local) =~~= cs0 + pad_tracks(pos - cs0.len()) + seq![
                Seq::<Seq<char>>::empty(),
            ]);
        }
    }
    let ghost before = tracks_view(&local);
    let ghost before_v = local@;
    let mut tr = local.remove(pos);
    tr.push(href);
    local.insert(pos, tr);
    proof {
        assert(local@ =~= before_v.update(pos as int, tr));
        assert(item_views(tr) =~= item_views(before_v[pos as int]).push(href@));
        assert(forall|k: int| 0 <= k < local@.len() ==> tracks_view(&local)[k] == item_views(
            local@[k],
        ));
        assert(before[pos as int] == item_views(before_v[pos as int]));
        assert(tracks_view(&local) =~= before.update(pos as int, before[pos as int].push(href@)));
        if pos < cs0.len() {
            assert(before =~~= cs0);
            assert(tracks_view(&local) =~~= with_marker(cs0, pos as int, href@));
        } else {
            assert(before[pos as int] =~= Seq::<Seq<char>>::empty());
            assert(tracks_view(&local) =~~= cs0 + pad_tracks(pos - cs0.len()) + seq![
                seq![href@],
            ]);
            assert(with_marker(cs0, pos as int, href@) == cs0 + pad_tracks(pos - cs0.len())
                + seq![seq![href@]]);
        }
    }
    local
}

/// Fit the component tracks into `limit` characters.
///
/// Starting at level 1, the prefix of every track at the current level is
/// assembled by `builder`; the level grows while the assembly fits in the
/// budget and some track still has more items. On the first assembly that
/// does not fit, the previous level's candidate is kept instead. If content
/// was cut and a `link` is given, the truncation marker is appended to the
/// track at the link's position — but only when the marker's length still
/// fits in what the budget leaves free; otherwise the call fails.
pub fn limit_content_and_see_more<A: Assembler>(
    limit: usize,
    components: &Vec<Vec<String>>,
    builder: &A,
    link: Option<(&str, usize)>,
) -> (r: Result<String, DoomError>)
    ensures
        ({
            let model = spec_fit(builder, limit as int, tracks_view(components), spec_link(link));
            match r {
                Ok(s) => model == Ok::<Seq<char>, ()>(s@),
                Err(e) => model is Err && (e matches DoomError::NotImplementedError {
                    functionality,
                } && functionality@ == "Handling of Insufficient Space for Link"@),
            }
        }),
{
    let ghost ts = tracks_view(components);
    let best = grow_candidates(limit, components, builder);
    let msg = builder.assemble(&best);
    let complete = same_shape(&best, components);
    match link {
        None => Ok(msg),
        Some((url, pos)) => {
            if complete {
                return Ok(msg);
            }
            let href = marker_string(url);
            let mlen = msg.as_str().unicode_len();
            let hlen = href.as_str().unicode_len();
            if mlen < limit && limit - mlen > hlen {
                let local = insert_marker(best, pos, href);
                Ok(builder.assemble(&local))
            } else {
                Err(DoomError::NotImplementedError {
                    functionality: String::from_str("Handling of Insufficient Space for Link"),
                })
            }
        },
    }
}

} // verus!
