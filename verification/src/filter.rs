//! The version filter: select the sections (and their aligned footnotes)
//! whose version satisfies a user-supplied range expression.

use vstd::prelude::*;
use vstd::string::*;
use crate::error::DoomError;
use crate::fit::item_views;
use crate::parse::{entry_view, entry_views, ChangelogDoc};
use crate::version::{range_error, range_matches, req_err_text, req_matches, req_ok};

verus! {

/// A range query with at most one leading `v` stripped.
pub open spec fn strip_v(q: Seq<char>) -> Seq<char> {
    if q.len() > 0 && q[0] == 'v' {
        q.drop_first()
    } else {
        q
    }
}

/// The sections and footnotes kept from position `i` on: entries and
/// footnotes are walked in step, pairing stops where either list ends, and a
/// pair is kept where its version satisfies the range.
pub open spec fn filter_pairs(
    entries: Seq<((u64, u64, u64, Seq<char>, Seq<char>), Seq<char>)>,
    notes: Seq<Seq<char>>,
    range: Seq<char>,
    i: int,
) -> (Seq<Seq<char>>, Seq<Seq<char>>)
    decreases entries.len() - i,
{
    if i < 0 || i >= entries.len() || i >= notes.len() {
        (Seq::empty(), Seq::empty())
    } else {
        let rest = filter_pairs(entries, notes, range, i + 1);
        if req_matches(range, entries[i].0) {
            (seq![entries[i].1] + rest.0, seq![notes[i]] + rest.1)
        } else {
            rest
        }
    }
}

/// The filtered sections and footnotes of a whole document.
pub open spec fn spec_filter(
    entries: Seq<((u64, u64, u64, Seq<char>, Seq<char>), Seq<char>)>,
    notes: Seq<Seq<char>>,
    range: Seq<char>,
) -> (Seq<Seq<char>>, Seq<Seq<char>>) {
    filter_pairs(entries, notes, range, 0)
}

/// Select the sections and footnotes whose version satisfies the range
/// expression. A leading `v` on the expression is ignored. An expression the
/// range parser rejects yields `RangeParseError` with the parser's reason;
/// an expression no version satisfies yields empty lists, not an error.
pub fn filter(doc: &ChangelogDoc, range: &str) -> (r: Result<(Vec<String>, Vec<String>), DoomError>)
    requires
        doc.wf(),
    ensures
        ({
            let q = strip_v(range@);
            let kept = spec_filter(entry_views(doc.entries), item_views(doc.footnotes), q);
            match r {
                Ok(pair) => req_ok(q) && item_views(pair.0) == kept.0 && item_views(pair.1)
                    == kept.1,
                Err(e) => !req_ok(q) && (e matches DoomError::RangeParseError { input, reason }
                    && input@ == q && reason@ == req_err_text(q)),
            }
        }),
{
    let n = range.unicode_len();
    let stripped: &str = if n > 0 && range.get_char(0) == 'v' {
        range.substring_char(1, n)
    } else {
        range
    };
    proof {
        assert(stripped@ =~= strip_v(range@));
    }
    match range_error(stripped) {
        Some(reason) => Err(DoomError::RangeParseError { input: stripped.to_owned(), reason }),
        None => {
            let ghost ev = entry_views(doc.entries);
            let ghost nv = item_views(doc.footnotes);
            let ghost q = strip_v(range@);
            let mut secs: Vec<String> = Vec::new();
            let mut notes: Vec<String> = Vec::new();
            let m = if doc.entries.len() <= doc.footnotes.len() {
                doc.entries.len()
            } else {
                doc.footnotes.len()
            };
            let mut i: usize = 0;
            while i < m
                invariant
                    i <= m,
                    m == if doc.entries@.len() <= doc.footnotes@.len() {
                        doc.entries@.len()
                    } else {
                        doc.footnotes@.len()
                    },
                    doc.wf(),
                    req_ok(q),
                    q == strip_v(range@),
                    stripped@ == q,
                    ev == entry_views(doc.entries),
                    nv == item_views(doc.footnotes),
                    spec_filter(ev, nv, q).0 == item_views(secs) + filter_pairs(ev, nv, q, i as int).0,
                    spec_filter(ev, nv, q).1 == item_views(notes) + filter_pairs(ev, nv, q, i as int).1,
                decreases m - i,
            {
                let ghost secs0 = secs;
                let ghost notes0 = notes;
                proof {
                    assert(ev[i as int] == entry_view(doc.entries@[i as int]));
                    assert(nv[i as int] == doc.footnotes@[i as int]@);
                }
                if range_matches(stripped, &doc.entries[i].version) {
                    secs.push(doc.entries[i].section.clone());
                    notes.push(doc.footnotes[i].clone());
                    proof {
                        assert(item_views(secs) =~= item_views(secs0).push(ev[i as int].1));
                        assert(item_views(notes) =~= item_views(notes0).push(nv[i as int]));
                        assert(item_views(secs0) + (seq![ev[i as int].1] + filter_pairs(
                            ev,
                            nv,
                            q,
                            i + 1,
                        ).0) =~= item_views(secs) + filter_pairs(ev, nv, q, i + 1).0);
                        assert(item_views(notes0) + (seq![nv[i as int]] + filter_pairs(
                            ev,
                            nv,
                            q,
                            i + 1,
                        ).1) =~= item_views(notes) + filter_pairs(ev, nv, q, i + 1).1);
                    }
                }
                i += 1;
            }
            proof {
                assert(filter_pairs(ev, nv, q, i as int).0 =~= Seq::<Seq<char>>::empty());
                assert(filter_pairs(ev, nv, q, i as int).1 =~= Seq::<Seq<char>>::empty());
                assert(item_views(secs) + filter_pairs(ev, nv, q, i as int).0 =~= item_views(
                    secs,
                ));
                assert(item_views(notes) + filter_pairs(ev, nv, q, i as int).1 =~= item_views(
                    notes,
                ));
            }
            Ok((secs, notes))
        },
    }
}

} // verus!
