//! Listing the resources of a data directory and ordering them.
use vstd::prelude::*;
use vstd::multiset::Multiset;
use vstd::seq_lib::{to_multiset_contains, to_multiset_insert, to_multiset_remove};
use crate::json::JsonValue;
use crate::text::{
    first_char_is, lemma_seq_lt_irreflexive, lemma_seq_lt_transitive, seq_lt, starts_with_char,
    str_eq, str_lt,
};
use crate::types::{decode_manifest, summary_of, GenericManifest, ResourceSummary, SummaryView};

verus! {

/// What a directory's manifest file turned out to be.
#[derive(Debug)]
pub enum ManifestFile {
    /// The directory has no manifest file.
    Missing,
    /// The file is there but could not be read or is not JSON.
    Unreadable,
    /// The file's JSON document.
    Parsed(JsonValue),
}

/// A directory that may hold one resource.
#[derive(Debug)]
pub struct ResourceDir {
    pub path: String,
    pub is_dir: bool,
    pub manifest: ManifestFile,
}

/// An entry directly under the data directory, with the directories below
/// it (looked at only when it has no manifest of its own).
#[derive(Debug)]
pub struct TopEntry {
    pub name: String,
    pub dir: ResourceDir,
    pub children: Vec<ResourceDir>,
}

/// Names that a listing passes over: those that start with `_` or `.`.
pub open spec fn is_hidden(name: Seq<char>) -> bool {
    starts_with_char(name, '_') || starts_with_char(name, '.')
}

/// Whether a listing passes over an entry of this name.
pub fn is_hidden_name(name: &str) -> (r: bool)
    ensures
        r == is_hidden(name@),
{
    first_char_is(name, '_') || first_char_is(name, '.')
}

/// The summary that one directory contributes: one for a directory whose
/// manifest describes a resource, none otherwise.
pub open spec fn dir_found(d: ResourceDir) -> Seq<SummaryView> {
    if d.is_dir {
        match d.manifest {
            ManifestFile::Parsed(doc) => match decode_manifest(doc) {
                Some(m) => seq![summary_of(m, d.path@)],
                None => Seq::empty(),
            },
            _ => Seq::empty(),
        }
    } else {
        Seq::empty()
    }
}

/// The summaries of a list of directories, in order.
pub open spec fn dirs_found(ds: Seq<ResourceDir>) -> Seq<SummaryView>
    decreases ds.len(),
{
    if ds.len() == 0 {
        Seq::empty()
    } else {
        dir_found(ds[0]) + dirs_found(ds.drop_first())
    }
}

/// The summaries of one top-level entry: none for a file or a hidden
/// name; the entry itself when it holds a manifest; else its children.
pub open spec fn entry_found(e: TopEntry) -> Seq<SummaryView> {
    if !e.dir.is_dir || is_hidden(e.name@) {
        Seq::empty()
    } else if !(e.dir.manifest is Missing) {
        dir_found(e.dir)
    } else {
        dirs_found(e.children@)
    }
}

/// The summaries of a whole listing, in listing order.
pub open spec fn listing_found(es: Seq<TopEntry>) -> Seq<SummaryView>
    decreases es.len(),
{
    if es.len() == 0 {
        Seq::empty()
    } else {
        entry_found(es[0]) + listing_found(es.drop_first())
    }
}

/// The contents of a list of summaries.
pub open spec fn summary_views(s: Seq<ResourceSummary>) -> Seq<SummaryView> {
    s.map_values(|x: ResourceSummary| x@)
}

/// The listing order: by category, then order, then name.
pub open spec fn summary_before(a: SummaryView, b: SummaryView) -> bool {
    seq_lt(a.major_category, b.major_category) || (a.major_category == b.major_category && (
    a.order < b.order || (a.order == b.order && seq_lt(a.name, b.name))))
}

/// No summary comes after one that sorts before it.
pub open spec fn summaries_sorted(s: Seq<SummaryView>) -> bool {
    forall|i: int, j: int| 0 <= i < j < s.len() ==> !summary_before(#[trigger] s[j], #[trigger] s[i])
}

proof fn lemma_before_irreflexive(a: SummaryView)
    ensures
        !summary_before(a, a),
{
    lemma_seq_lt_irreflexive(a.major_category);
    lemma_seq_lt_irreflexive(a.name);
}

proof fn lemma_before_transitive(a: SummaryView, b: SummaryView, c: SummaryView)
    requires
        summary_before(a, b),
        summary_before(b, c),
    ensures
        summary_before(a, c),
{
    if seq_lt(a.major_category, b.major_category) && seq_lt(b.major_category, c.major_category) {
        lemma_seq_lt_transitive(a.major_category, b.major_category, c.major_category);
    }
    if a.major_category == c.major_category && seq_lt(a.major_category, b.major_category) {
        lemma_seq_lt_transitive(a.major_category, b.major_category, a.major_category);
        lemma_seq_lt_irreflexive(a.major_category);
    }
    if a.major_category == b.major_category && b.major_category == c.major_category && a.order
        == b.order && b.order == c.order {
        lemma_seq_lt_transitive(a.name, b.name, c.name);
    }
}

/// Whether `a` comes before `b` in a listing.
pub fn summary_precedes(a: &ResourceSummary, b: &ResourceSummary) -> (r: bool)
    ensures
        r == summary_before(a@, b@),
{
    if str_lt(a.major_category.as_str(), b.major_category.as_str()) {
        return true;
    }
    if !str_eq(a.major_category.as_str(), b.major_category.as_str()) {
        return false;
    }
    if a.order != b.order {
        return a.order < b.order;
    }
    str_lt(a.name.as_str(), b.name.as_str())
}

/// Sorts summaries into listing order.
pub fn sort_summaries(v: Vec<ResourceSummary>) -> (r: Vec<ResourceSummary>)
    ensures
        summary_views(r@).to_multiset() == summary_views(v@).to_multiset(),
        summaries_sorted(summary_views(r@)),
        r@.len() == v@.len(),
{
    broadcast use vstd::multiset::group_multiset_axioms, vstd::seq_lib::group_to_multiset_ensures;

    let ghost all = summary_views(v@).to_multiset();
    let mut rest = v;
    let mut out: Vec<ResourceSummary> = Vec::new();
    assert(summary_views(out@) =~= Seq::<SummaryView>::empty());
    assert(summary_views(out@).to_multiset() =~= Multiset::empty());
    assert(summary_views(out@).to_multiset().add(summary_views(rest@).to_multiset()) =~= all);
    while rest.len() > 0
        invariant
            summary_views(out@).to_multiset().add(summary_views(rest@).to_multiset()) == all,
            summaries_sorted(summary_views(out@)),
            out@.len() + rest@.len() == v@.len(),
        decreases rest.len(),
    {
        let ghost rest0 = rest@;
        let ghost out0 = out@;
        let x = rest.remove(0);
        let mut p: usize = 0;
        while p < out.len() && !summary_precedes(&x, &out[p])
            invariant
                p <= out.len(),
                out@ == out0,
                forall|q: int| 0 <= q < p ==> !summary_before(x@, #[trigger] out@[q]@),
            decreases out.len() - p,
        {
            p = p + 1;
        }
        out.insert(p, x);
        proof {
            assert(summary_views(rest@) =~= summary_views(rest0).remove(0));
            assert(summary_views(out@) =~= summary_views(out0).insert(p as int, x@));
            assert(summary_views(rest0)[0] == x@);
            assert(summary_views(rest0).contains(x@));
            to_multiset_remove(summary_views(rest0), 0);
            to_multiset_insert(summary_views(out0), p as int, x@);
            let ma = summary_views(out0).to_multiset();
            let mb = summary_views(rest0).to_multiset();
            to_multiset_contains(summary_views(rest0), x@);
            assert(mb.count(x@) > 0);
            assert(summary_views(out@).to_multiset() == ma.insert(x@));
            assert(summary_views(rest@).to_multiset() == mb.remove(x@));
            assert(ma.insert(x@).add(mb.remove(x@)) =~= ma.add(mb));
            let s = summary_views(out@);
            assert forall|i: int, j: int| 0 <= i < j < s.len() implies !summary_before(
                #[trigger] s[j],
                #[trigger] s[i],
            ) by {
                let s0 = summary_views(out0);
                if j < p {
                    assert(s[i] == s0[i] && s[j] == s0[j]);
                } else if j == p {
                    assert(s[i] == out0[i]@);
                    assert(s[j] == x@);
                } else if i == p {
                    assert(s[i] == x@);
                    assert(s[j] == s0[j - 1]);
                    if p < out0.len() {
                        assert(summary_before(x@, out0[p as int]@));
                        if j - 1 > p {
                            assert(!summary_before(s0[j - 1], s0[p as int]));
                        }
                        if summary_before(s[j], x@) {
                            lemma_before_transitive(s[j], x@, out0[p as int]@);
                            if j - 1 == p {
                                lemma_before_irreflexive(s[j]);
                            }
                        }
                    }
                } else if i < p {
                    assert(s[i] == s0[i] && s[j] == s0[j - 1]);
                } else {
                    assert(s[i] == s0[i - 1] && s[j] == s0[j - 1]);
                }
            }
        }
    }
    assert(summary_views(rest@) =~= Seq::<SummaryView>::empty());
    assert(summary_views(out@).to_multiset() =~= all);
    out
}

/// The summary of one directory, when its manifest describes a resource.
fn dir_summary(d: ResourceDir) -> (r: Option<ResourceSummary>)
    ensures
        match r {
            Some(x) => dir_found(d) == seq![x@],
            None => dir_found(d) == Seq::<SummaryView>::empty(),
        },
{
    if !d.is_dir {
        return None;
    }
    match d.manifest {
        ManifestFile::Parsed(doc) => match GenericManifest::from_json(doc) {
            Ok(m) => Some(m.to_summary(d.path)),
            Err(_) => None,
        },
        _ => None,
    }
}

/// Appends the summaries of `ds` to `out`.
fn push_dirs(out: &mut Vec<ResourceSummary>, ds: Vec<ResourceDir>)
    ensures
        summary_views(final(out)@) == summary_views(old(out)@) + dirs_found(ds@),
{
    let ghost start = summary_views(out@);
    let ghost all = ds@;
    let mut rest = ds;
    assert(all.skip(0) =~= all);
    while rest.len() > 0
        invariant
            rest@ == all.skip(all.len() - rest@.len()),
            rest@.len() <= all.len(),
            start + dirs_found(all) == summary_views(out@) + dirs_found(rest@),
        decreases rest.len(),
    {
        let ghost rest0 = rest@;
        let ghost out0 = summary_views(out@);
        let d = rest.remove(0);
        assert(rest@ =~= rest0.drop_first());
        assert(rest@ =~= all.skip(all.len() - rest@.len()));
        match dir_summary(d) {
            Some(x) => {
                out.push(x);
                assert(summary_views(out@) =~= out0 + seq![x@]);
            },
            None => {},
        }
        assert(out0 + dirs_found(rest0) =~= summary_views(out@) + dirs_found(rest@));
    }
    assert(dirs_found(rest@) =~= Seq::<SummaryView>::empty());
    assert(summary_views(out@) + dirs_found(rest@) =~= summary_views(out@));
}

/// The resources of a data directory listing, in listing order: a
/// resource for each directory whose manifest describes one, found
/// directly under the data directory or one level below, passing over
/// files, hidden names and manifests that do not describe a resource.
pub fn collect_resources(entries: Vec<TopEntry>) -> (r: Vec<ResourceSummary>)
    ensures
        summary_views(r@) == listing_found(entries@),
{
    let ghost all = entries@;
    let mut rest = entries;
    let mut out: Vec<ResourceSummary> = Vec::new();
    assert(all.skip(0) =~= all);
    assert(summary_views(out@) =~= Seq::<SummaryView>::empty());
    assert(summary_views(out@) + listing_found(rest@) =~= listing_found(all));
    while rest.len() > 0
        invariant
            rest@ == all.skip(all.len() - rest@.len()),
            rest@.len() <= all.len(),
            listing_found(all) == summary_views(out@) + listing_found(rest@),
        decreases rest.len(),
    {
        let ghost rest0 = rest@;
        let ghost out0 = summary_views(out@);
        let e = rest.remove(0);
        assert(rest@ =~= rest0.drop_first());
        assert(rest@ =~= all.skip(all.len() - rest@.len()));
        let skip = !e.dir.is_dir || is_hidden_name(e.name.as_str());
        if !skip {
            let has_manifest = match e.dir.manifest {
                ManifestFile::Missing => false,
                _ => true,
            };
            if has_manifest {
                match dir_summary(e.dir) {
                    Some(x) => {
                        out.push(x);
                        assert(summary_views(out@) =~= out0 + seq![x@]);
                    },
                    None => {},
                }
            } else {
                push_dirs(&mut out, e.children);
            }
        }
        assert(out0 + listing_found(rest0) =~= summary_views(out@) + listing_found(rest@));
    }
    assert(listing_found(rest@) =~= Seq::<SummaryView>::empty());
    assert(summary_views(out@) + listing_found(rest@) =~= summary_views(out@));
    out
}

/// Lists the resources of a data directory: those that
/// [`collect_resources`] finds, sorted by category, then order, then name.
/// Each directory whose manifest describes a resource gives exactly one
/// summary, and every other one gives none.
pub fn scan_resources(entries: Vec<TopEntry>) -> (r: Vec<ResourceSummary>)
    ensures
        summary_views(r@).to_multiset() == listing_found(entries@).to_multiset(),
        r@.len() == listing_found(entries@).len(),
        summaries_sorted(summary_views(r@)),
{
    let found = collect_resources(entries);
    sort_summaries(found)
}

/// Whether a directory holds a resource: its manifest describes one.
pub open spec fn is_resource(d: ResourceDir) -> bool {
    d.is_dir && (d.manifest matches ManifestFile::Parsed(doc) && decode_manifest(doc) is Some)
}

/// The number of directories of `ds` that hold a resource.
pub open spec fn resource_count(ds: Seq<ResourceDir>) -> nat
    decreases ds.len(),
{
    if ds.len() == 0 {
        0
    } else {
        resource_count(ds.drop_first()) + if is_resource(ds[0]) {
            1nat
        } else {
            0nat
        }
    }
}

/// A category folder whose subfolders are scanned gives exactly one summary
/// for each subfolder that holds a resource and none for the malformed or
/// unreadable ones: with N valid and M malformed subfolders, N summaries.
pub proof fn lemma_scan_counts_resources(category: TopEntry)
    requires
        category.dir.is_dir,
        !is_hidden(category.name@),
        category.dir.manifest is Missing,
    ensures
        listing_found(seq![category]).len() == resource_count(category.children@),
{
    lemma_dirs_found_count(category.children@);
    let one = seq![category];
    assert(one.drop_first() =~= Seq::<TopEntry>::empty());
    assert(listing_found(one.drop_first()) =~= Seq::<SummaryView>::empty());
    assert(one[0] == category);
    assert(entry_found(category) == dirs_found(category.children@));
    assert(listing_found(one) =~= dirs_found(category.children@));
}

proof fn lemma_dirs_found_count(ds: Seq<ResourceDir>)
    ensures
        dirs_found(ds).len() == resource_count(ds),
    decreases ds.len(),
{
    if ds.len() > 0 {
        lemma_dirs_found_count(ds.drop_first());
    }
}

} // verus!
