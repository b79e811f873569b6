//! The changelog parser: it splits a changelog document into a normalized
//! header, version sections keyed by their resolved semantic version in
//! descending order, and the footnote link lines.

use vstd::prelude::*;
use vstd::string::*;
use crate::error::DoomError;
use crate::fit::item_views;
use crate::text::{
    find_ch, find_from, find_sub, lemma_find_ch_props, lemma_find_from_props,
    lemma_find_from_single, match_at, match_at_exec, reflow, spec_lines, spec_reflow, spec_trim,
    split_lines, str_eq, trim_str,
};
use crate::version::{
    make_version, parse_version, precedence_lt, semver_lt, semver_parse, version_eq,
    version_view, Version,
};

verus! {

/// One changelog section: its resolved version and its trimmed text.
pub struct ChangelogEntry {
    pub version: Version,
    pub section: String,
}

/// A parsed changelog document. `entries` is ordered by descending version.
pub struct ChangelogDoc {
    pub header: String,
    pub entries: Vec<ChangelogEntry>,
    pub footnotes: Vec<String>,
}

/// The plain view of one entry.
pub open spec fn entry_view(e: ChangelogEntry) -> (
    (u64, u64, u64, Seq<char>, Seq<char>),
    Seq<char>,
) {
    (version_view(e.version), e.section@)
}

/// The plain view of the entry list.
pub open spec fn entry_views(es: Vec<ChangelogEntry>) -> Seq<
    ((u64, u64, u64, Seq<char>, Seq<char>), Seq<char>),
> {
    es@.map_values(|e: ChangelogEntry| entry_view(e))
}

impl ChangelogDoc {
    /// Every version the document carries is well-formed.
    pub open spec fn wf(self) -> bool {
        forall|i: int| 0 <= i < self.entries@.len() ==> (#[trigger] self.entries@[i]).version.wf()
    }
}

/// A heading starts a line with `## [` and its label runs to the first `]`,
/// which must leave the label non-empty.
pub open spec fn is_heading(b: Seq<char>, i: int) -> bool {
    &&& (i == 0 || b[i - 1] == '\n')
    &&& match_at(b, "## ["@, i)
    &&& match find_ch(b, ']', i + 4) {
        Some(j) => j > i + 4,
        None => false,
    }
}

/// The position of the `]` that closes a heading's label.
pub open spec fn heading_close(b: Seq<char>, i: int) -> int {
    match find_ch(b, ']', i + 4) {
        Some(j) => j,
        None => i + 4,
    }
}

/// The label between a heading's brackets.
pub open spec fn heading_label(b: Seq<char>, i: int) -> Seq<char> {
    b.subrange(i + 4, heading_close(b, i))
}

/// All heading positions at or after `i`, in document order.
pub open spec fn headings_from(b: Seq<char>, i: int) -> Seq<int>
    decreases b.len() - i,
{
    if i >= b.len() {
        Seq::empty()
    } else if is_heading(b, i) {
        seq![i] + headings_from(b, i + 1)
    } else {
        headings_from(b, i + 1)
    }
}

/// All heading positions of the section block, in document order.
pub open spec fn spec_headings(b: Seq<char>) -> Seq<int> {
    headings_from(b, 0)
}

pub proof fn lemma_headings_props(b: Seq<char>, i: int)
    requires
        0 <= i,
    ensures
        forall|q: int|
            0 <= q < headings_from(b, i).len() ==> i <= #[trigger] headings_from(b, i)[q]
                < b.len() && is_heading(b, headings_from(b, i)[q]),
        forall|q: int|
            0 <= q < headings_from(b, i).len() - 1 ==> #[trigger] headings_from(b, i)[q]
                < headings_from(b, i)[q + 1],
    decreases b.len() - i,
{
    if i < b.len() {
        lemma_headings_props(b, i + 1);
        let inner = headings_from(b, i + 1);
        if is_heading(b, i) {
            let hs = headings_from(b, i);
            assert(hs == seq![i] + inner);
            assert forall|q: int| 0 <= q < hs.len() implies i <= #[trigger] hs[q] < b.len()
                && is_heading(b, hs[q]) by {
                if q > 0 {
                    assert(hs[q] == inner[q - 1]);
                }
            }
            assert forall|q: int| 0 <= q < hs.len() - 1 implies #[trigger] hs[q] < hs[q + 1] by {
                assert(hs[q + 1] == inner[q]);
                if q > 0 {
                    assert(hs[q] == inner[q - 1]);
                }
            }
        }
    }
}

/// The version a section label resolves to, given the nearest older resolved
/// version: `Unreleased` becomes one minor step above it (or `0.1.0` with no
/// older version), any other label must be a semantic version. `None` stands
/// for a label that resolves to no version: an unparsable label, or a minor
/// number that cannot be stepped.
pub open spec fn resolve_label(
    label: Seq<char>,
    last: Option<(u64, u64, u64, Seq<char>, Seq<char>)>,
) -> Option<(u64, u64, u64, Seq<char>, Seq<char>)> {
    if label == "Unreleased"@ {
        match last {
            None => Some((0u64, 1u64, 0u64, Seq::<char>::empty(), Seq::<char>::empty())),
            Some(v) => if v.1 == u64::MAX {
                None
            } else {
                Some((v.0, (v.1 + 1) as u64, 0u64, Seq::<char>::empty(), Seq::<char>::empty()))
            },
        }
    } else {
        semver_parse(label)
    }
}

/// Where a version is inserted in a descending entry list: before the first
/// entry whose version orders below it.
pub open spec fn insert_pos(
    entries: Seq<((u64, u64, u64, Seq<char>, Seq<char>), Seq<char>)>,
    v: (u64, u64, u64, Seq<char>, Seq<char>),
) -> int
    decreases entries.len(),
{
    if entries.len() == 0 {
        0
    } else if semver_lt(entries[0].0, v) {
        0
    } else {
        1 + insert_pos(entries.drop_first(), v)
    }
}

pub proof fn lemma_insert_pos_props(
    entries: Seq<((u64, u64, u64, Seq<char>, Seq<char>), Seq<char>)>,
    v: (u64, u64, u64, Seq<char>, Seq<char>),
)
    ensures
        0 <= insert_pos(entries, v) <= entries.len(),
        forall|q: int| 0 <= q < insert_pos(entries, v) ==> !semver_lt(#[trigger] entries[q].0, v),
        insert_pos(entries, v) < entries.len() ==> semver_lt(entries[insert_pos(entries, v)].0, v),
    decreases entries.len(),
{
    if entries.len() > 0 && !semver_lt(entries[0].0, v) {
        let rest = entries.drop_first();
        lemma_insert_pos_props(rest, v);
        let p = insert_pos(entries, v);
        assert forall|q: int| 0 <= q < p implies !semver_lt(#[trigger] entries[q].0, v) by {
            if q > 0 {
                assert(entries[q] == rest[q - 1]);
            }
        }
        if p < entries.len() {
            assert(entries[p] == rest[p - 1]);
        }
    }
}

/// Whether the entry list already holds this version.
pub open spec fn has_version(
    entries: Seq<((u64, u64, u64, Seq<char>, Seq<char>), Seq<char>)>,
    v: (u64, u64, u64, Seq<char>, Seq<char>),
) -> bool {
    exists|q: int| 0 <= q < entries.len() && (#[trigger] entries[q]).0 == v
}

/// Once building fails, it fails the same way from every earlier index.
pub proof fn lemma_build_error_propagates(b: Seq<char>, hs: Seq<int>, j: int, k: int)
    requires
        j <= k,
        !(build_from(b, hs, k) matches Built::Table { .. }),
    ensures
        build_from(b, hs, j) == build_from(b, hs, k),
    decreases k - j,
{
    if j < k {
        lemma_build_error_propagates(b, hs, j + 1, k);
    }
}

/// The outcome of building the version map.
pub enum Built {
    /// A label resolved to no version.
    Invalid,
    /// The same version headed two sections.
    Duplicate,
    /// The entries so far, in descending version order, and the most recently
    /// resolved version.
    Table {
        entries: Seq<((u64, u64, u64, Seq<char>, Seq<char>), Seq<char>)>,
        last: Option<(u64, u64, u64, Seq<char>, Seq<char>)>,
    },
}

/// The trimmed text of the section headed at `hs[k]`: it runs to the next
/// heading, or to the end of the block for the last section.
pub open spec fn section_text(b: Seq<char>, hs: Seq<int>, k: int) -> Seq<char> {
    let end = if k + 1 < hs.len() {
        hs[k + 1]
    } else {
        b.len() as int
    };
    spec_trim(b.subrange(hs[k], end))
}

/// The version map built from the headings with index `k` and beyond,
/// processed oldest-to-newest (the last heading first), each resolved version
/// inserted in descending order, duplicates rejected.
pub open spec fn build_from(b: Seq<char>, hs: Seq<int>, k: int) -> Built
    decreases hs.len() - k,
{
    if k >= hs.len() {
        Built::Table { entries: Seq::empty(), last: None }
    } else {
        match build_from(b, hs, k + 1) {
            Built::Invalid => Built::Invalid,
            Built::Duplicate => Built::Duplicate,
            Built::Table { entries, last } => {
                match resolve_label(heading_label(b, hs[k]), last) {
                    None => Built::Invalid,
                    Some(v) => {
                        if has_version(entries, v) {
                            Built::Duplicate
                        } else {
                            Built::Table {
                                entries: entries.insert(
                                    insert_pos(entries, v),
                                    (v, section_text(b, hs, k)),
                                ),
                                last: Some(v),
                            }
                        }
                    },
                }
            },
        }
    }
}

/// What `parse` produces on a document.
pub enum SpecParse {
    /// An anchor is missing or a label resolves to no version.
    Malformed,
    /// The same version heads two sections.
    Duplicate,
    /// The normalized header, the entries in descending version order, and
    /// the footnote lines.
    Parsed {
        header: Seq<char>,
        entries: Seq<((u64, u64, u64, Seq<char>, Seq<char>), Seq<char>)>,
        footnotes: Seq<Seq<char>>,
    },
}

/// The parse of a raw changelog text. The text before the first `## [` is
/// the header, reflowed and trimmed. The latest version's label is read from
/// the first bracket pair after it, and the first line starting
/// `[<label>]: ` opens the footer. The block between holds the version
/// sections.
pub open spec fn spec_parse(s: Seq<char>) -> SpecParse {
    match find_from(s, "## ["@, 0) {
        None => SpecParse::Malformed,
        Some(h) => {
            let rest = s.skip(h);
            match (find_ch(rest, '[', 0), find_ch(rest, ']', 0)) {
                (Some(o), Some(cl)) => {
                    if cl <= o {
                        SpecParse::Malformed
                    } else {
                        let label = rest.subrange(o + 1, cl);
                        match find_from(rest, "["@ + label + "]: "@, 0) {
                            None => SpecParse::Malformed,
                            Some(f) => {
                                let body = rest.take(f);
                                match build_from(body, spec_headings(body), 0) {
                                    Built::Invalid => SpecParse::Malformed,
                                    Built::Duplicate => SpecParse::Duplicate,
                                    Built::Table { entries, .. } => SpecParse::Parsed {
                                        header: spec_reflow(spec_trim(s.take(h))),
                                        entries,
                                        footnotes: spec_lines(rest.skip(f)),
                                    },
                                }
                            },
                        }
                    }
                },
                _ => SpecParse::Malformed,
            }
        },
    }
}


/// The integer view of a position list.
pub open spec fn positions_view(v: Vec<usize>) -> Seq<int> {
    v@.map_values(|u: usize| u as int)
}

fn is_heading_exec(b: &str, i: usize, n: usize) -> (r: bool)
    requires
        n == b@.len(),
        i < n,
    ensures
        r == is_heading(b@, i as int),
{
    proof {
        reveal_strlit("## [");
        reveal_strlit("]");
        assert("]"@ =~= seq![']']);
    }
    if !(i == 0 || b.get_char(i - 1) == '\n') {
        return false;
    }
    if n - i < 4 {
        return false;
    }
    if !match_at_exec(b, "## [", i) {
        return false;
    }
    proof {
        lemma_find_from_single(b@, ']', i + 4);
    }
    match find_sub(b, "]", i + 4) {
        None => false,
        Some(j) => j > i + 4,
    }
}

fn find_headings(b: &str) -> (r: Vec<usize>)
    ensures
        positions_view(r) == spec_headings(b@),
{
    let n = b.unicode_len();
    let mut r: Vec<usize> = Vec::new();
    let mut i: usize = 0;
    while i < n
        invariant
            0 <= i <= n,
            n == b@.len(),
            spec_headings(b@) == positions_view(r) + headings_from(b@, i as int),
        decreases n - i,
    {
        let ghost r0 = r;
        let h = is_heading_exec(b, i, n);
        if h {
            r.push(i);
            proof {
                assert(positions_view(r) =~= positions_view(r0).push(i as int));
                assert(positions_view(r0) + (seq![i as int] + headings_from(b@, i + 1))
                    =~= positions_view(r) + headings_from(b@, i + 1));
            }
        }
        i += 1;
    }
    proof {
        assert(positions_view(r) + headings_from(b@, i as int) =~= positions_view(r));
    }
    r
}

#[verifier::rlimit(100)]
fn build_entries(b: &str, hs: &Vec<usize>) -> (r: Result<Vec<ChangelogEntry>, DoomError>)
    requires
        positions_view(*hs) == spec_headings(b@),
    ensures
        match r {
            Ok(es) => (build_from(b@, spec_headings(b@), 0) matches Built::Table {
                entries,
                last,
            } && entries == entry_views(es)) && forall|q: int|
                0 <= q < es@.len() ==> (#[trigger] es@[q]).version.wf(),
            Err(e) => match e {
                DoomError::MalformedDocument => build_from(b@, spec_headings(b@), 0) matches
                    Built::Invalid,
                DoomError::DuplicateVersion => build_from(b@, spec_headings(b@), 0) matches
                    Built::Duplicate,
                _ => false,
            },
        },
{
    let ghost bv = b@;
    let ghost hsv = spec_headings(b@);
    proof {
        reveal_strlit("## [");
        reveal_strlit("]");
        assert("]"@ =~= seq![']']);
        lemma_headings_props(bv, 0);
    }
    let n = b.unicode_len();
    let m = hs.len();
    let mut entries: Vec<ChangelogEntry> = Vec::new();
    let mut last_mm: Option<(u64, u64)> = None;
    let ghost mut lastv: Option<(u64, u64, u64, Seq<char>, Seq<char>)> = None;
    let mut k = m;
    proof {
        assert(positions_view(*hs).len() == hs@.len());
        assert(entry_views(entries) =~= Seq::<
            ((u64, u64, u64, Seq<char>, Seq<char>), Seq<char>),
        >::empty());
    }
    while k > 0
        invariant
            k <= m,
            m == hs@.len(),
            bv == b@,
            n == bv.len(),
            positions_view(*hs) == hsv,
            hsv == spec_headings(bv),
            build_from(bv, hsv, k as int) == (Built::Table {
                entries: entry_views(entries),
                last: lastv,
            }),
            match lastv {
                None => last_mm is None,
                Some(v) => last_mm == Some((v.0, v.1)),
            },
            forall|q: int| 0 <= q < entries@.len() ==> (#[trigger] entries@[q]).version.wf(),
        decreases k,
    {
        k -= 1;
        proof {
            reveal_strlit("## [");
            reveal_strlit("]");
            assert("]"@ =~= seq![']']);
            lemma_headings_props(bv, 0);
            assert(hsv[k as int] == hs@[k as int] as int);
        }
        let start = hs[k];
        proof {
            assert(is_heading(bv, start as int));
            assert(start + 4 <= n);
            lemma_find_from_single(bv, ']', start + 4);
            lemma_find_ch_props(bv, ']', start + 4);
        }
        let j = match find_sub(b, "]", start + 4) {
            Some(j) => j,
            None => {
                proof {
                    assert(false);
                }
                return Err(DoomError::MalformedDocument);
            },
        };
        let label_s = b.substring_char(start + 4, j);
        proof {
            assert(label_s@ == heading_label(bv, start as int));
            reveal_strlit("Unreleased");
        }
        let resolved: Version;
        if str_eq(label_s, "Unreleased") {
            match last_mm {
                None => {
                    resolved = make_version(0, 1, 0);
                },
                Some((ma, mi)) => {
                    if mi == u64::MAX {
                        proof {
                            assert(resolve_label(heading_label(bv, hsv[k as int]), lastv)
                                is None);
                            assert(build_from(bv, hsv, k as int) matches Built::Invalid);
                            lemma_build_error_propagates(bv, hsv, 0, k as int);
                        }
                        return Err(DoomError::MalformedDocument);
                    }
                    resolved = make_version(ma, mi + 1, 0);
                },
            }
        } else {
            match parse_version(label_s) {
                Some(v) => {
                    resolved = v;
                },
                None => {
                    proof {
                        assert(resolve_label(heading_label(bv, hsv[k as int]), lastv) is None);
                        assert(build_from(bv, hsv, k as int) matches Built::Invalid);
                        lemma_build_error_propagates(bv, hsv, 0, k as int);
                    }
                    return Err(DoomError::MalformedDocument);
                },
            }
        }
        let ghost rv = version_view(resolved);
        proof {
            assert(resolve_label(heading_label(bv, hsv[k as int]), lastv) == Some(rv));
        }
        let end = if k + 1 < m {
            proof {
                assert(hsv[k as int + 1] == hs@[k as int + 1] as int);
                assert(hsv[k as int] < hsv[k as int + 1]);
            }
            hs[k + 1]
        } else {
            n
        };
        let sec = trim_str(b.substring_char(start, end));
        proof {
            assert(sec@ == section_text(bv, hsv, k as int));
        }
        let ghost es0 = entry_views(entries);
        let mut q: usize = 0;
        let mut dup = false;
        while q < entries.len()
            invariant
                q <= entries@.len(),
                es0 == entry_views(entries),
                rv == version_view(resolved),
                dup == !(forall|t: int| 0 <= t < q ==> (#[trigger] es0[t]).0 != rv),
            decreases entries@.len() - q,
        {
            proof {
                assert(es0[q as int] == entry_view(entries@[q as int]));
            }
            if version_eq(&entries[q].version, &resolved) {
                dup = true;
            }
            q += 1;
        }
        if dup {
            proof {
                assert(has_version(es0, rv));
                assert(build_from(bv, hsv, k as int) matches Built::Duplicate);
                lemma_build_error_propagates(bv, hsv, 0, k as int);
            }
            return Err(DoomError::DuplicateVersion);
        }
        proof {
            assert(!has_version(es0, rv));
            lemma_insert_pos_props(es0, rv);
        }
        let mut p: usize = 0;
        while p < entries.len() && !precedence_lt(&entries[p].version, &resolved)
            invariant
                p <= entries@.len(),
                es0 == entry_views(entries),
                rv == version_view(resolved),
                resolved.wf(),
                forall|t: int| 0 <= t < entries@.len() ==> (#[trigger] entries@[t]).version.wf(),
                forall|t: int| 0 <= t < p ==> !semver_lt((#[trigger] es0[t]).0, rv),
            decreases entries@.len() - p,
        {
            proof {
                assert(es0[p as int] == entry_view(entries@[p as int]));
            }
            p += 1;
        }
        proof {
            if (p as int) < es0.len() {
                assert(es0[p as int] == entry_view(entries@[p as int]));
            }
            assert(p as int == insert_pos(es0, rv)) by {
                let ip = insert_pos(es0, rv);
                if (p as int) < ip {
                    assert(!semver_lt(es0[p as int].0, rv));
                } else if ip < p as int {
                    assert(!semver_lt(es0[ip].0, rv));
                }
            }
        }
        let ma = resolved.major;
        let mi = resolved.minor;
        entries.insert(p, ChangelogEntry { version: resolved, section: sec });
        last_mm = Some((ma, mi));
        proof {
            lastv = Some(rv);
            assert(entry_views(entries) =~= es0.insert(p as int, (rv, sec@)));
        }
    }
    proof {
        assert(build_from(bv, hsv, 0) == (Built::Table {
            entries: entry_views(entries),
            last: lastv,
        }));
    }
    Ok(entries)
}

/// Parse a raw changelog document.
///
/// The text before the first `## [` becomes the header, soft-wrapped lines
/// joined and blank-line runs collapsed, then trimmed. The first `[...]`
/// pair after it names the latest version; the first occurrence of
/// `[<label>]: ` opens the footer, whose lines become the footnotes. The
/// block between is cut at its `## [...]` headings; labels are resolved
/// oldest-to-newest, `Unreleased` standing one minor step above the nearest
/// older release, and the sections are ordered by descending version.
///
/// Errors: `MalformedDocument` when an anchor is missing or a label resolves
/// to no version, `DuplicateVersion` when one version heads two sections.
pub fn parse(text: &str) -> (r: Result<ChangelogDoc, DoomError>)
    ensures
        match r {
            Ok(doc) => spec_parse(text@) == (SpecParse::Parsed {
                header: doc.header@,
                entries: entry_views(doc.entries),
                footnotes: item_views(doc.footnotes),
            }) && doc.wf(),
            Err(e) => match e {
                DoomError::MalformedDocument => spec_parse(text@) matches SpecParse::Malformed,
                DoomError::DuplicateVersion => spec_parse(text@) matches SpecParse::Duplicate,
                _ => false,
            },
        },
{
    proof {
        reveal_strlit("## [");
        reveal_strlit("[");
        reveal_strlit("]");
        assert("["@ =~= seq!['[']);
        assert("]"@ =~= seq![']']);
    }
    let n = text.unicode_len();
    let h = match find_sub(text, "## [", 0) {
        Some(h) => h,
        None => {
            return Err(DoomError::MalformedDocument);
        },
    };
    proof {
        lemma_find_from_props(text@, "## ["@, 0);
    }
    let trimmed = trim_str(text.substring_char(0, h));
    let header = reflow(trimmed.as_str());
    let rest = text.substring_char(h, n);
    let ghost restv = text@.skip(h as int);
    proof {
        assert(restv =~= rest@);
        lemma_find_from_single(rest@, '[', 0);
        lemma_find_from_single(rest@, ']', 0);
        lemma_find_ch_props(rest@, '[', 0);
        lemma_find_ch_props(rest@, ']', 0);
    }
    let o = match find_sub(rest, "[", 0) {
        Some(o) => o,
        None => {
            return Err(DoomError::MalformedDocument);
        },
    };
    let cl = match find_sub(rest, "]", 0) {
        Some(c) => c,
        None => {
            return Err(DoomError::MalformedDocument);
        },
    };
    if cl <= o {
        return Err(DoomError::MalformedDocument);
    }
    let rest_len = rest.unicode_len();
    let label = rest.substring_char(o + 1, cl);
    let mut indicator = String::from_str("[");
    indicator.append(label);
    indicator.append("]: ");
    let f = match find_sub(rest, indicator.as_str(), 0) {
        Some(f) => f,
        None => {
            return Err(DoomError::MalformedDocument);
        },
    };
    proof {
        lemma_find_from_props(rest@, indicator@, 0);
    }
    let body = rest.substring_char(0, f);
    let footer = rest.substring_char(f, rest_len);
    proof {
        assert(body@ =~= restv.take(f as int));
        assert(footer@ =~= restv.skip(f as int));
    }
    let footnotes = split_lines(footer);
    let hs = find_headings(body);
    let entries = match build_entries(body, &hs) {
        Ok(es) => es,
        Err(e) => {
            return Err(e);
        },
    };
    proof {
        assert(header@ == spec_reflow(spec_trim(text@.take(h as int)))) by {
            assert(text@.subrange(0, h as int) =~= text@.take(h as int));
        }
    }
    Ok(ChangelogDoc { header, entries, footnotes })
}
} // verus!
