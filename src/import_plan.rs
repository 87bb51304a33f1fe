//! Planning the import of a resource archive: which top-level folders of
//! the archive are brought in, which are skipped because the target already
//! holds them, and which entries are extracted.
use vstd::prelude::*;
use crate::json::texts;
use crate::text::{char_vec, find_char, first_index_of, str_eq};

verus! {

/// An entry of an archive that could not be imported.
#[derive(Debug)]
pub struct ImportFailure {
    pub id: String,
    pub error: String,
}

/// What an import did: the top-level folders brought in, those skipped,
/// and those that failed.
#[derive(Debug)]
pub struct ImportResult {
    pub imported: Vec<String>,
    pub skipped: Vec<String>,
    pub failed: Vec<ImportFailure>,
}

/// The top-level folder of an archive entry: its name up to the first `/`.
pub open spec fn first_component(name: Seq<char>) -> Seq<char> {
    match first_index_of(name, '/') {
        Some(i) => name.take(i),
        None => name,
    }
}

/// The distinct non-empty top-level folders of a list of entry names, in
/// the order in which they first occur.
pub open spec fn tops_of(names: Seq<Seq<char>>) -> Seq<Seq<char>>
    decreases names.len(),
{
    if names.len() == 0 {
        Seq::empty()
    } else {
        let prev = tops_of(names.drop_last());
        let t = first_component(names.last());
        if t.len() == 0 || prev.contains(t) {
            prev
        } else {
            prev.push(t)
        }
    }
}

/// The folders of `tops` whose flag in `present` is `flag`, in order.
pub open spec fn select(tops: Seq<Seq<char>>, present: Seq<bool>, flag: bool) -> Seq<Seq<char>>
    decreases tops.len(),
{
    if tops.len() == 0 || present.len() == 0 {
        Seq::empty()
    } else {
        let prev = select(tops.drop_last(), present.drop_last(), flag);
        if present.last() == flag {
            prev.push(tops.last())
        } else {
            prev
        }
    }
}

/// The top-level folder of an archive entry.
pub fn first_component_of(name: &str) -> (r: String)
    ensures
        r@ == first_component(name@),
{
    let c = char_vec(name);
    assert(c@.skip(0) =~= c@);
    match find_char(&c, 0, '/') {
        Some(i) => name.substring_char(0, i).to_owned(),
        None => name.to_owned(),
    }
}

/// Whether `v` holds a string with the text of `s`.
fn holds_text(v: &Vec<String>, s: &str) -> (r: bool)
    ensures
        r == texts(v@).contains(s@),
{
    let mut i: usize = 0;
    while i < v.len()
        invariant
            i <= v@.len(),
            forall|j: int| 0 <= j < i ==> v@[j]@ != s@,
        decreases v.len() - i,
    {
        if str_eq(v[i].as_str(), s) {
            assert(texts(v@)[i as int] == s@);
            return true;
        }
        i = i + 1;
    }
    proof {
        if texts(v@).contains(s@) {
            let j = choose|j: int| 0 <= j < texts(v@).len() && texts(v@)[j] == s@;
            assert(v@[j]@ == s@);
        }
    }
    false
}

/// The distinct non-empty top-level folders of an archive's entries, in
/// the order in which they first occur.
pub fn top_level_names(names: &Vec<String>) -> (r: Vec<String>)
    ensures
        texts(r@) == tops_of(texts(names@)),
{
    let mut out: Vec<String> = Vec::new();
    let mut i: usize = 0;
    assert(texts(names@).take(0) =~= Seq::<Seq<char>>::empty());
    assert(texts(out@) =~= Seq::<Seq<char>>::empty());
    while i < names.len()
        invariant
            i <= names@.len(),
            texts(out@) == tops_of(texts(names@).take(i as int)),
        decreases names.len() - i,
    {
        let t = first_component_of(names[i].as_str());
        let ghost prefix = texts(names@).take(i + 1);
        assert(prefix.drop_last() =~= texts(names@).take(i as int));
        assert(prefix.last() == names@[i as int]@);
        let n = t.unicode_len();
        if n > 0 && !holds_text(&out, t.as_str()) {
            let ghost before = texts(out@);
            out.push(t);
            assert(texts(out@) =~= before.push(t@));
        }
        i = i + 1;
    }
    assert(texts(names@).take(i as int) =~= texts(names@));
    out
}

/// Splits the top-level folders by whether the target already holds them:
/// those it holds are skipped, the others imported.
pub fn plan_import(tops: Vec<String>, present: &Vec<bool>) -> (r: ImportResult)
    requires
        tops@.len() == present@.len(),
    ensures
        texts(r.imported@) == select(texts(tops@), present@, false),
        texts(r.skipped@) == select(texts(tops@), present@, true),
        r.failed@.len() == 0,
{
    let mut imported: Vec<String> = Vec::new();
    let mut skipped: Vec<String> = Vec::new();
    let ghost all = texts(tops@);
    let mut rest = tops;
    let mut i: usize = 0;
    assert(texts(imported@) =~= Seq::<Seq<char>>::empty());
    assert(texts(skipped@) =~= Seq::<Seq<char>>::empty());
    assert(all.take(0) =~= Seq::<Seq<char>>::empty());
    while i < present.len()
        invariant
            i <= present@.len(),
            all.len() == present@.len(),
            texts(rest@) == all.skip(i as int),
            rest@.len() + i == all.len(),
            texts(imported@) == select(all.take(i as int), present@.take(i as int), false),
            texts(skipped@) == select(all.take(i as int), present@.take(i as int), true),
        decreases present.len() - i,
    {
        let ghost rest0 = texts(rest@);
        let ghost r0 = rest@;
        let t = rest.remove(0);
        assert(texts(rest@) =~= rest0.drop_first());
        assert(t == r0[0]);
        assert(rest0[0] == all.skip(i as int)[0]);
        assert(t@ == all[i as int]);
        assert(all.take(i + 1).drop_last() =~= all.take(i as int));
        assert(present@.take(i + 1).drop_last() =~= present@.take(i as int));
        let ghost imp0 = texts(imported@);
        let ghost sk0 = texts(skipped@);
        if present[i] {
            skipped.push(t);
            assert(texts(skipped@) =~= sk0.push(t@));
        } else {
            imported.push(t);
            assert(texts(imported@) =~= imp0.push(t@));
        }
        i = i + 1;
        assert(texts(rest@) =~= all.skip(i as int));
    }
    assert(all.take(i as int) =~= all);
    assert(present@.take(i as int) =~= present@);
    ImportResult { imported, skipped, failed: Vec::new() }
}

/// Whether an archive entry is extracted: its top-level folder is among
/// those imported.
pub fn should_extract(name: &str, imported: &Vec<String>) -> (r: bool)
    ensures
        r == texts(imported@).contains(first_component(name@)),
{
    let t = first_component_of(name);
    holds_text(imported, t.as_str())
}

proof fn lemma_tops_cover(names: Seq<Seq<char>>, k: int)
    requires
        0 <= k < names.len(),
        first_component(names[k]).len() > 0,
    ensures
        tops_of(names).contains(first_component(names[k])),
    decreases names.len(),
{
    let prev = tops_of(names.drop_last());
    let t = first_component(names.last());
    if k < names.len() - 1 {
        assert(names.drop_last()[k] == names[k]);
        lemma_tops_cover(names.drop_last(), k);
        let j = choose|j: int| 0 <= j < prev.len() && prev[j] == first_component(names[k]);
        if !(t.len() == 0 || prev.contains(t)) {
            assert(prev.push(t)[j] == prev[j]);
        }
    } else {
        if !(t.len() == 0 || prev.contains(t)) {
            assert(prev.push(t)[prev.len() as int] == t);
        }
    }
}

proof fn lemma_tops_distinct(names: Seq<Seq<char>>)
    ensures
        forall|i: int, j: int| 0 <= i < j < tops_of(names).len() ==> tops_of(names)[i] != tops_of(names)[j],
    decreases names.len(),
{
    if names.len() > 0 {
        lemma_tops_distinct(names.drop_last());
        let prev = tops_of(names.drop_last());
        let t = first_component(names.last());
        if !(t.len() == 0 || prev.contains(t)) {
            let r = prev.push(t);
            assert forall|i: int, j: int| 0 <= i < j < r.len() implies r[i] != r[j] by {
                if j == prev.len() {
                    assert(r[j] == t);
                    assert(r[i] == prev[i]);
                } else {
                    assert(r[i] == prev[i] && r[j] == prev[j]);
                }
            }
        }
    }
}

proof fn lemma_select_fresh(tops: Seq<Seq<char>>, present: Seq<bool>)
    requires
        tops.len() == present.len(),
        forall|i: int| 0 <= i < present.len() ==> !present[i],
    ensures
        select(tops, present, false) == tops,
        select(tops, present, true) == Seq::<Seq<char>>::empty(),
    decreases tops.len(),
{
    if tops.len() > 0 {
        lemma_select_fresh(tops.drop_last(), present.drop_last());
        assert(tops.drop_last().push(tops.last()) =~= tops);
    }
}

proof fn lemma_select_member(tops: Seq<Seq<char>>, present: Seq<bool>, flag: bool, t: Seq<char>)
    requires
        tops.len() == present.len(),
    ensures
        select(tops, present, flag).contains(t) <==> exists|i: int|
            0 <= i < tops.len() && tops[i] == t && present[i] == flag,
    decreases tops.len(),
{
    if tops.len() > 0 {
        let prev = select(tops.drop_last(), present.drop_last(), flag);
        lemma_select_member(tops.drop_last(), present.drop_last(), flag, t);
        let n = tops.len() - 1;
        if select(tops, present, flag).contains(t) {
            let j = choose|j: int| 0 <= j < select(tops, present, flag).len() && select(tops, present, flag)[j] == t;
            if present.last() == flag && j == prev.len() {
                assert(tops[n] == t && present[n] == flag);
            } else {
                assert(prev[j] == t);
                let i = choose|i: int| 0 <= i < n && tops.drop_last()[i] == t && present.drop_last()[i] == flag;
                assert(tops[i] == t && present[i] == flag);
            }
        }
        if exists|i: int| 0 <= i < tops.len() && tops[i] == t && present[i] == flag {
            let i = choose|i: int| 0 <= i < tops.len() && tops[i] == t && present[i] == flag;
            if i == n {
                assert(select(tops, present, flag)[prev.len() as int] == t);
            } else {
                assert(tops.drop_last()[i] == t && present.drop_last()[i] == flag);
                let j = choose|j: int| 0 <= j < prev.len() && prev[j] == t;
                if present.last() == flag {
                    assert(prev.push(tops.last())[j] == t);
                }
            }
        }
    }
}

/// Importing an archive into a target that holds none of its top-level
/// folders imports every one of them, skips none, and extracts every entry
/// that lies under a top-level folder: the target then holds the same file
/// trees as the archive.
pub proof fn lemma_fresh_import(names: Seq<Seq<char>>, present: Seq<bool>)
    requires
        present.len() == tops_of(names).len(),
        forall|i: int| 0 <= i < present.len() ==> !present[i],
    ensures
        select(tops_of(names), present, false) == tops_of(names),
        select(tops_of(names), present, true).len() == 0,
        forall|k: int|
            0 <= k < names.len() && first_component(#[trigger] names[k]).len() > 0 ==> select(
                tops_of(names),
                present,
                false,
            ).contains(first_component(names[k])),
{
    lemma_select_fresh(tops_of(names), present);
    assert forall|k: int|
        0 <= k < names.len() && first_component(#[trigger] names[k]).len() > 0 implies select(
            tops_of(names),
            present,
            false,
        ).contains(first_component(names[k])) by {
        lemma_tops_cover(names, k);
    }
}

/// Importing an archive again after some of its folders are gone from the
/// target: each top-level folder that the target still holds is skipped and
/// not imported, and each one that it no longer holds is imported and not
/// skipped.
pub proof fn lemma_reimport(names: Seq<Seq<char>>, present: Seq<bool>)
    requires
        present.len() == tops_of(names).len(),
    ensures
        forall|i: int|
            0 <= i < present.len() ==> (#[trigger] present[i] ==> select(tops_of(names), present, true).contains(
                tops_of(names)[i],
            ) && !select(tops_of(names), present, false).contains(tops_of(names)[i])),
        forall|i: int|
            0 <= i < present.len() ==> (!#[trigger] present[i] ==> select(tops_of(names), present, false).contains(
                tops_of(names)[i],
            ) && !select(tops_of(names), present, true).contains(tops_of(names)[i])),
{
    let tops = tops_of(names);
    lemma_tops_distinct(names);
    assert forall|i: int| 0 <= i < present.len() implies (#[trigger] present[i] ==> select(tops, present, true).contains(
        tops[i],
    ) && !select(tops, present, false).contains(tops[i])) && (!present[i] ==> select(tops, present, false).contains(
        tops[i],
    ) && !select(tops, present, true).contains(tops[i])) by {
        lemma_select_member(tops, present, true, tops[i]);
        lemma_select_member(tops, present, false, tops[i]);
    }
}

} // verus!
