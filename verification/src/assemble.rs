//! Assemblers: strategies that merge component tracks into one message.
//!
//! The changelog assembler joins a header track with single spaces, a body
//! track with blank lines and a footnote track with single newlines, in that
//! order, separated by blank lines.

use vstd::prelude::*;
use vstd::string::*;
use crate::fit::{item_views, tracks_view, Assembler};

verus! {

/// The items joined by the separator: `a`, `a SEP b`, `a SEP b SEP c`, ...
pub open spec fn join(items: Seq<Seq<char>>, sep: Seq<char>) -> Seq<char>
    decreases items.len(),
{
    if items.len() == 0 {
        Seq::empty()
    } else if items.len() == 1 {
        items[0]
    } else {
        items[0] + sep + join(items.drop_first(), sep)
    }
}

proof fn lemma_join_step(items: Seq<Seq<char>>, sep: Seq<char>, i: int)
    requires
        1 <= i < items.len(),
    ensures
        join(items.take(i + 1), sep) == join(items.take(i), sep) + sep + items[i],
    decreases i,
{
    if i == 1 {
        assert(items.take(2) =~= seq![items[0], items[1]]);
        assert(items.take(2).drop_first() =~= seq![items[1]]);
        assert(items.take(1) =~= seq![items[0]]);
        assert(join(seq![items[1]], sep) == items[1]);
        assert(join(items.take(2), sep) == items[0] + sep + items[1]);
        assert(join(items.take(1), sep) == items[0]);
    } else {
        let rest = items.drop_first();
        lemma_join_step(rest, sep, i - 1);
        assert(items.take(i + 1).drop_first() =~= rest.take(i));
        assert(items.take(i).drop_first() =~= rest.take(i - 1));
        assert(items.take(i + 1)[0] == items[0]);
        assert(items.take(i)[0] == items[0]);
        assert(rest[i - 1] == items[i]);
        assert(join(items.take(i + 1), sep) == items[0] + sep + join(rest.take(i), sep));
        assert(join(items.take(i), sep) == items[0] + sep + join(rest.take(i - 1), sep));
        assert(items[0] + sep + (join(rest.take(i - 1), sep) + sep + items[i]) =~= (items[0] + sep
            + join(rest.take(i - 1), sep)) + sep + items[i]);
    }
}

proof fn lemma_join_take_len(items: Seq<Seq<char>>, sep: Seq<char>, n: int)
    requires
        0 <= n <= items.len(),
    ensures
        join(items.take(n), sep).len() <= join(items, sep).len(),
    decreases items.len() - n,
{
    if n == items.len() {
        assert(items.take(n) =~= items);
    } else {
        if n == 0 {
            assert(items.take(0) =~= Seq::<Seq<char>>::empty());
        } else {
            lemma_join_step(items, sep, n);
        }
        lemma_join_take_len(items, sep, n + 1);
    }
}

/// Cutting a track to a level never makes its joined rendering longer.
pub proof fn lemma_track_prefix_join_len(t: Seq<Seq<char>>, sep: Seq<char>, level: int)
    requires
        0 <= level,
    ensures
        join(crate::fit::track_prefix(t, level), sep).len() <= join(t, sep).len(),
{
    if t.len() <= level {
    } else {
        lemma_join_take_len(t, sep, level);
    }
}

/// The last item of a track occurs in its joined rendering.
pub proof fn lemma_join_contains_last(items: Seq<Seq<char>>, sep: Seq<char>)
    requires
        items.len() >= 1,
    ensures
        crate::laws::contains_seq(join(items, sep), items.last()),
{
    let n = items.len() as int;
    if n == 1 {
        crate::laws::lemma_contains_self(join(items, sep));
        assert(join(items, sep) == items[0]);
    } else {
        lemma_join_step(items, sep, n - 1);
        assert(items.take(n) =~= items);
        let head = join(items.take(n - 1), sep) + sep;
        crate::laws::lemma_contains_self(items[n - 1]);
        crate::laws::lemma_contains_concat_right(head, items[n - 1], items[n - 1]);
        assert(join(items, sep) == head + items[n - 1]);
    }
}

/// Join the items of one track with a separator.
pub fn join_items(items: &Vec<String>, sep: &str) -> (r: String)
    ensures
        r@ == join(item_views(*items), sep@),
{
    let ghost iv = item_views(*items);
    let mut out = String::new();
    let mut i: usize = 0;
    while i < items.len()
        invariant
            i <= items@.len(),
            iv == item_views(*items),
            out@ == join(iv.take(i as int), sep@),
        decreases items@.len() - i,
    {
        proof {
            assert(iv[i as int] == items@[i as int]@);
        }
        if i > 0 {
            out.append(sep);
            proof {
                lemma_join_step(iv, sep@, i as int);
            }
        } else {
            proof {
                assert(iv.take(1) =~= seq![iv[0]]);
            }
        }
        out.append(items[i].as_str());
        i += 1;
    }
    proof {
        assert(iv.take(items@.len() as int) =~= iv);
    }
    out
}

/// The track at an index, or an empty track where the index is past the end.
pub open spec fn track_at(ts: Seq<Seq<Seq<char>>>, i: int) -> Seq<Seq<char>> {
    if 0 <= i < ts.len() {
        ts[i]
    } else {
        Seq::empty()
    }
}

/// What `build_changelog` produces: nothing for an empty track list;
/// otherwise the space-joined header track, the blank-line-joined body track
/// and the newline-joined footnote track, separated by blank lines. A missing
/// track counts as empty, and tracks past the third are ignored.
pub open spec fn changelog_assembly(ts: Seq<Seq<Seq<char>>>) -> Seq<char> {
    if ts.len() == 0 {
        Seq::empty()
    } else {
        join(track_at(ts, 0), " "@) + "\n\n"@ + join(track_at(ts, 1), "\n\n"@) + "\n\n"@ + join(
            track_at(ts, 2),
            "\n"@,
        )
    }
}

/// Merge a header track, a body track and a footnote track into one
/// changelog message.
pub fn build_changelog(tracks: &Vec<Vec<String>>) -> (r: String)
    ensures
        r@ == changelog_assembly(tracks_view(tracks)),
{
    let ghost ts = tracks_view(tracks);
    if tracks.len() == 0 {
        return String::new();
    }
    proof {
        assert(track_at(ts, 0) == item_views(tracks@[0]));
    }
    let mut out = join_items(&tracks[0], " ");
    out.append("\n\n");
    if tracks.len() > 1 {
        proof {
            assert(track_at(ts, 1) == item_views(tracks@[1]));
        }
        let body = join_items(&tracks[1], "\n\n");
        out.append(body.as_str());
    }
    out.append("\n\n");
    if tracks.len() > 2 {
        proof {
            assert(track_at(ts, 2) == item_views(tracks@[2]));
        }
        let feet = join_items(&tracks[2], "\n");
        out.append(feet.as_str());
    }
    proof {
        assert(out@ =~= changelog_assembly(ts));
    }
    out
}

/// The assembler of changelog messages.
pub struct ChangelogAssembler;

impl Assembler for ChangelogAssembler {
    open spec fn spec_assemble(&self, ts: Seq<Seq<Seq<char>>>) -> Seq<char> {
        changelog_assembly(ts)
    }

    fn assemble(&self, tracks: &Vec<Vec<String>>) -> (r: String) {
        build_changelog(tracks)
    }
}

/// What `SpaceJoinAssembler` produces: the items of the first track joined
/// with single spaces; every other track is ignored.
pub open spec fn first_track_join(ts: Seq<Seq<Seq<char>>>) -> Seq<char> {
    join(track_at(ts, 0), " "@)
}

/// A minimal assembler: it joins the first track with single spaces.
pub struct SpaceJoinAssembler;

impl Assembler for SpaceJoinAssembler {
    open spec fn spec_assemble(&self, ts: Seq<Seq<Seq<char>>>) -> Seq<char> {
        first_track_join(ts)
    }

    fn assemble(&self, tracks: &Vec<Vec<String>>) -> (r: String) {
        if tracks.len() == 0 {
            let r = String::new();
            proof {
                assert(track_at(tracks_view(tracks), 0) == Seq::<Seq<char>>::empty());
            }
            r
        } else {
            proof {
                assert(track_at(tracks_view(tracks), 0) == item_views(tracks@[0]));
            }
            join_items(&tracks[0], " ")
        }
    }
}

} // verus!
