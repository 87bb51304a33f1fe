//! Changes to resource manifests: the order of a new resource, reindexing a
//! category, and the members that batch operations set.
use vstd::prelude::*;
use crate::json::JsonValue;
use crate::scan::ManifestFile;
use crate::text::{lemma_seq_lt_irreflexive, lemma_seq_lt_transitive, seq_lt, str_lt};

verus! {

/// The order that a manifest document states: its integer `order` member,
/// or `0` when there is none.
pub open spec fn order_of(doc: JsonValue) -> i64 {
    match doc.member("order"@) {
        Some(JsonValue::Int(n)) => n,
        _ => 0,
    }
}

/// The highest order among the readable manifests of a category, or `-1`
/// when there is none.
pub open spec fn max_order(files: Seq<ManifestFile>) -> i64
    decreases files.len(),
{
    if files.len() == 0 {
        -1i64
    } else {
        let rest = max_order(files.drop_last());
        match files.last() {
            ManifestFile::Parsed(doc) => if order_of(doc) > rest {
                order_of(doc)
            } else {
                rest
            },
            _ => rest,
        }
    }
}

/// The order that a manifest states.
pub fn manifest_order(doc: &JsonValue) -> (r: i64)
    ensures
        r == order_of(*doc),
{
    match doc.get("order") {
        Some(JsonValue::Int(n)) => *n,
        _ => 0,
    }
}

/// The highest order among the readable manifests of a category.
pub fn highest_order(files: &Vec<ManifestFile>) -> (r: i64)
    ensures
        r == max_order(files@),
{
    let mut best: i64 = -1;
    let mut i: usize = 0;
    assert(files@.subrange(0, 0) =~= Seq::<ManifestFile>::empty());
    while i < files.len()
        invariant
            i <= files.len(),
            best == max_order(files@.subrange(0, i as int)),
        decreases files.len() - i,
    {
        assert(files@.subrange(0, i + 1).drop_last() =~= files@.subrange(0, i as int));
        match &files[i] {
            ManifestFile::Parsed(doc) => {
                let n = manifest_order(doc);
                if n > best {
                    best = n;
                }
            },
            _ => {},
        }
        i = i + 1;
    }
    assert(files@.subrange(0, i as int) =~= files@);
    best
}

/// Gives a new resource's manifest the order after the highest one in its
/// category. Fails, leaving the manifest as it was, when that order does
/// not fit in an `i64`.
pub fn assign_new_order(manifest: &mut JsonValue, siblings: &Vec<ManifestFile>) -> (r: Result<i64, String>)
    ensures
        r is Ok <==> max_order(siblings@) < i64::MAX,
        r matches Ok(n) ==> n == max_order(siblings@) + 1,
        r is Ok && (*old(manifest)) is Object ==> final(manifest).member("order"@) == Some(JsonValue::Int((max_order(siblings@) + 1) as i64)),
        r is Ok && (*old(manifest)) is Object ==> forall|k: Seq<char>| k != "order"@ ==> #[trigger] final(manifest).member(k) == old(manifest).member(k),
        r is Err || !((*old(manifest)) is Object) ==> *final(manifest) == *old(manifest),
{
    let top = highest_order(siblings);
    if top == i64::MAX {
        return Err("order does not fit".to_owned());
    }
    let next = top + 1;
    manifest.insert("order", JsonValue::Int(next));
    Ok(next)
}

/// Sets member `key` of a manifest to `value` and its `updatedAt` member
/// to `now`.
pub fn set_stamped(doc: &mut JsonValue, key: &str, value: JsonValue, now: &str)
    requires
        key@ != "updatedAt"@,
    ensures
        (*old(doc)) is Object ==> final(doc).member(key@) == Some(value),
        (*old(doc)) is Object ==> (final(doc).member("updatedAt"@) matches Some(JsonValue::Str(t)) && t@ == now@),
        (*old(doc)) is Object ==> forall|k: Seq<char>| k != key@ && k != "updatedAt"@ ==> #[trigger] final(doc).member(k) == old(doc).member(k),
        !((*old(doc)) is Object) ==> *final(doc) == *old(doc),
{
    doc.insert(key, value);
    doc.insert("updatedAt", JsonValue::Str(now.to_owned()));
}

/// Relies on chrono's `From<SystemTime> for DateTime<Utc>` and
/// `DateTime::to_rfc3339`: the current time as RFC 3339 text. Its value
/// depends on the clock; what every result has is the form that chrono's
/// `write_rfc3339` writes: a year of at least four digits, `-MM-DDTHH:MM:SS`,
/// an optional fraction and a `+HH:MM` offset, so at least 25 characters.
/// The conversion handles clocks set before 1970; it fails only for a clock
/// outside chrono's range of about 262,000 years either side of year 0.
#[verifier::external_body]
fn now_rfc3339() -> (r: String)
    ensures
        r@.len() >= 25,
{
    chrono::DateTime::<chrono::Utc>::from(std::time::SystemTime::now()).to_rfc3339()
}

/// Sets a manifest's `order` member and stamps it with the current time.
pub fn touch_order(doc: &mut JsonValue, order: i32)
    ensures
        (*old(doc)) is Object ==> final(doc).member("order"@) == Some(JsonValue::Int(order as i64)),
        (*old(doc)) is Object ==> (final(doc).member("updatedAt"@) matches Some(JsonValue::Str(t)) && t@.len() >= 25),
        (*old(doc)) is Object ==> forall|k: Seq<char>| k != "order"@ && k != "updatedAt"@ ==> #[trigger] final(doc).member(k) == old(doc).member(k),
        !((*old(doc)) is Object) ==> *final(doc) == *old(doc),
{
    proof {
        reveal_strlit("order");
        reveal_strlit("updatedAt");
        assert("order"@.len() != "updatedAt"@.len());
    }
    let now = now_rfc3339();
    set_stamped(doc, "order", JsonValue::Int(order as i64), now.as_str());
}

/// Sets a manifest's `enabled` member and stamps it with the current time.
pub fn touch_enabled(doc: &mut JsonValue, enabled: bool)
    ensures
        (*old(doc)) is Object ==> final(doc).member("enabled"@) == Some(JsonValue::Bool(enabled)),
        (*old(doc)) is Object ==> (final(doc).member("updatedAt"@) matches Some(JsonValue::Str(t)) && t@.len() >= 25),
        (*old(doc)) is Object ==> forall|k: Seq<char>| k != "enabled"@ && k != "updatedAt"@ ==> #[trigger] final(doc).member(k) == old(doc).member(k),
        !((*old(doc)) is Object) ==> *final(doc) == *old(doc),
{
    proof {
        reveal_strlit("enabled");
        reveal_strlit("updatedAt");
        assert("enabled"@.len() != "updatedAt"@.len());
    }
    let now = now_rfc3339();
    set_stamped(doc, "enabled", JsonValue::Bool(enabled), now.as_str());
}

/// Sets a manifest's `majorCategory` member and stamps it with the current
/// time.
pub fn touch_category(doc: &mut JsonValue, category: &str)
    ensures
        (*old(doc)) is Object ==> (final(doc).member("majorCategory"@) matches Some(JsonValue::Str(c)) && c@ == category@),
        (*old(doc)) is Object ==> (final(doc).member("updatedAt"@) matches Some(JsonValue::Str(t)) && t@.len() >= 25),
        (*old(doc)) is Object ==> forall|k: Seq<char>| k != "majorCategory"@ && k != "updatedAt"@ ==> #[trigger] final(doc).member(k) == old(doc).member(k),
        !((*old(doc)) is Object) ==> *final(doc) == *old(doc),
{
    proof {
        reveal_strlit("majorCategory");
        reveal_strlit("updatedAt");
        assert("majorCategory"@.len() != "updatedAt"@.len());
    }
    let now = now_rfc3339();
    set_stamped(doc, "majorCategory", JsonValue::Str(category.to_owned()), now.as_str());
}

/// The name by which reindexing sorts a manifest: its `name` text, or
/// empty when it has none or could not be read.
pub open spec fn name_key(doc: Option<JsonValue>) -> Seq<char> {
    match doc {
        Some(d) => match d.member("name"@) {
            Some(JsonValue::Str(s)) => s@,
            _ => Seq::empty(),
        },
        None => Seq::empty(),
    }
}

/// The `name` text of a manifest, if it has one.
pub fn manifest_name(doc: &JsonValue) -> (r: Option<String>)
    ensures
        match r {
            Some(s) => doc.member("name"@) matches Some(JsonValue::Str(t)) && t@ == s@,
            None => !(doc.member("name"@) matches Some(JsonValue::Str(_))),
        },
{
    match doc.get("name") {
        Some(JsonValue::Str(s)) => Some(s.clone()),
        _ => None,
    }
}

/// The indices of `names` in name order, each index once.
fn sort_by_name(names: &Vec<String>) -> (perm: Vec<usize>)
    ensures
        perm@.len() == names@.len(),
        forall|k: int| 0 <= k < perm@.len() ==> perm@[k] < names@.len(),
        forall|k: int, l: int| 0 <= k < l < perm@.len() ==> perm@[k] != perm@[l],
        forall|x: usize| x < names@.len() ==> #[trigger] perm@.contains(x),
        forall|k: int, l: int|
            0 <= k < l < perm@.len() ==> !seq_lt(
                #[trigger] names@[perm@[l] as int]@,
                #[trigger] names@[perm@[k] as int]@,
            ),
{
    let mut perm: Vec<usize> = Vec::new();
    let mut i: usize = 0;
    while i < names.len()
        invariant
            i <= names@.len(),
            perm@.len() == i,
            forall|k: int| 0 <= k < perm@.len() ==> perm@[k] < i,
            forall|k: int, l: int| 0 <= k < l < perm@.len() ==> perm@[k] != perm@[l],
            forall|x: usize| x < i ==> #[trigger] perm@.contains(x),
            forall|k: int, l: int|
                0 <= k < l < perm@.len() ==> !seq_lt(
                    #[trigger] names@[perm@[l] as int]@,
                    #[trigger] names@[perm@[k] as int]@,
                ),
        decreases names.len() - i,
    {
        let mut p: usize = 0;
        while p < perm.len() && !str_lt(names[i].as_str(), names[perm[p]].as_str())
            invariant
                p <= perm@.len(),
                i < names@.len(),
                forall|k: int| 0 <= k < perm@.len() ==> perm@[k] < i,
                forall|q: int| 0 <= q < p ==> !seq_lt(names@[i as int]@, #[trigger] names@[perm@[q] as int]@),
            decreases perm.len() - p,
        {
            p = p + 1;
        }
        let ghost old_perm = perm@;
        perm.insert(p, i);
        proof {
            assert(perm@ =~= old_perm.insert(p as int, i));
            assert forall|x: usize| x < i + 1 implies #[trigger] perm@.contains(x) by {
                if x == i {
                    assert(perm@[p as int] == x);
                } else {
                    assert(old_perm.contains(x));
                    let k0 = choose|k: int| 0 <= k < old_perm.len() && old_perm[k] == x;
                    if k0 < p {
                        assert(perm@[k0] == x);
                    } else {
                        assert(perm@[k0 + 1] == x);
                    }
                }
            }
            assert forall|k: int, l: int| 0 <= k < l < perm@.len() implies !seq_lt(
                #[trigger] names@[perm@[l] as int]@,
                #[trigger] names@[perm@[k] as int]@,
            ) by {
                let a = names@[i as int]@;
                if l < p {
                    assert(perm@[k] == old_perm[k] && perm@[l] == old_perm[l]);
                } else if l == p {
                    assert(perm@[k] == old_perm[k]);
                } else if k == p {
                    assert(perm@[l] == old_perm[l - 1]);
                    if p < old_perm.len() {
                        let b = names@[old_perm[p as int] as int]@;
                        let c = names@[old_perm[l - 1] as int]@;
                        assert(seq_lt(a, b));
                        if l - 1 > p {
                            assert(!seq_lt(c, b));
                        }
                        if seq_lt(c, a) {
                            lemma_seq_lt_transitive(c, a, b);
                            if l - 1 == p {
                                lemma_seq_lt_irreflexive(c);
                            }
                        }
                    }
                } else if k < p {
                    assert(perm@[k] == old_perm[k] && perm@[l] == old_perm[l - 1]);
                } else {
                    assert(perm@[k] == old_perm[k - 1] && perm@[l] == old_perm[l - 1]);
                }
            }
        }
        i = i + 1;
    }
    perm
}

/// The rank of each name in name order: the ranks are `0..n`, each once,
/// and a name that sorts before another gets the lower rank.
pub fn rank_by_name(names: &Vec<String>) -> (ranks: Vec<usize>)
    ensures
        ranks@.len() == names@.len(),
        forall|i: int| 0 <= i < ranks@.len() ==> ranks@[i] < names@.len(),
        forall|i: int, j: int| 0 <= i < j < ranks@.len() ==> ranks@[i] != ranks@[j],
        forall|i: int, j: int|
            0 <= i < ranks@.len() && 0 <= j < ranks@.len() && seq_lt(
                #[trigger] names@[i]@,
                #[trigger] names@[j]@,
            ) ==> ranks@[i] < ranks@[j],
{
    let perm = sort_by_name(names);
    let n = names.len();
    let mut ranks: Vec<usize> = Vec::new();
    let mut i: usize = 0;
    while i < n
        invariant
            i <= n,
            n == names@.len(),
            ranks@.len() == i,
            forall|j: int| 0 <= j < i ==> ranks@[j] == 0,
        decreases n - i,
    {
        ranks.push(0);
        i = i + 1;
    }
    let mut k: usize = 0;
    while k < n
        invariant
            k <= n,
            n == names@.len(),
            perm@.len() == n,
            ranks@.len() == n,
            forall|q: int| 0 <= q < n ==> perm@[q] < n,
            forall|q: int, l: int| 0 <= q < l < n ==> perm@[q] != perm@[l],
            forall|q: int| 0 <= q < k ==> ranks@[perm@[q] as int] == q,
        decreases n - k,
    {
        ranks.set(perm[k], k);
        k = k + 1;
    }
    proof {
        assert forall|x: int| 0 <= x < n implies perm@[ranks@[x] as int] == x && ranks@[x] < n by {
            assert(perm@.contains(x as usize));
            let q = choose|q: int| 0 <= q < perm@.len() && perm@[q] == x;
            assert(ranks@[perm@[q] as int] == q);
        }
        assert forall|i: int, j: int|
            0 <= i < ranks@.len() && 0 <= j < ranks@.len() && seq_lt(
                #[trigger] names@[i]@,
                #[trigger] names@[j]@,
            ) implies ranks@[i] < ranks@[j] by {
            assert(perm@[ranks@[i] as int] == i);
            assert(perm@[ranks@[j] as int] == j);
            if ranks@[j] == ranks@[i] {
                lemma_seq_lt_irreflexive(names@[i]@);
            } else if ranks@[j] < ranks@[i] {
                assert(!seq_lt(names@[perm@[ranks@[i] as int] as int]@, names@[perm@[ranks@[j] as int] as int]@));
            }
        }
    }
    ranks
}

/// Reindexes the manifests of one category: sorted by name (a manifest
/// without one, or one that could not be read, sorts as empty), they take
/// the orders `0..n`, returned as `ranks`. A manifest that could not be read
/// stays unread but still holds its place in the order.
pub fn reindex_category(docs: &mut Vec<Option<JsonValue>>) -> (ranks: Vec<usize>)
    requires
        old(docs)@.len() <= i32::MAX,
    ensures
        final(docs)@.len() == old(docs)@.len(),
        ranks@.len() == old(docs)@.len(),
        forall|i: int| 0 <= i < ranks@.len() ==> ranks@[i] < ranks@.len(),
        forall|i: int, j: int| 0 <= i < j < ranks@.len() ==> ranks@[i] != ranks@[j],
        forall|i: int, j: int|
            0 <= i < ranks@.len() && 0 <= j < ranks@.len() && seq_lt(
                #[trigger] name_key(old(docs)@[i]),
                #[trigger] name_key(old(docs)@[j]),
            ) ==> ranks@[i] < ranks@[j],
        forall|i: int|
            0 <= i < ranks@.len() ==> match #[trigger] old(docs)@[i] {
                Some(JsonValue::Object(_)) => final(docs)@[i] matches Some(d) && d is Object
                    && d.member("order"@) == Some(JsonValue::Int(ranks@[i] as i64))
                    && forall|k: Seq<char>| k != "order"@ ==> #[trigger] d.member(k) == old(docs)@[i]->Some_0.member(k),
                _ => final(docs)@[i] == old(docs)@[i],
            },
{
    let mut names: Vec<String> = Vec::new();
    let mut i: usize = 0;
    while i < docs.len()
        invariant
            i <= docs@.len(),
            names@.len() == i,
            forall|j: int| 0 <= j < i ==> (#[trigger] names@[j])@ == name_key(docs@[j]),
        decreases docs.len() - i,
    {
        let name = match &docs[i] {
            Some(d) => match manifest_name(d) {
                Some(s) => s,
                None => String::new(),
            },
            None => String::new(),
        };
        names.push(name);
        i = i + 1;
    }
    let ranks = rank_by_name(&names);
    let ghost before = docs@;
    let mut out: Vec<Option<JsonValue>> = Vec::new();
    let mut rest: Vec<Option<JsonValue>> = Vec::new();
    core::mem::swap(docs, &mut rest);
    let mut k: usize = 0;
    while rest.len() > 0
        invariant
            k + rest@.len() == before.len(),
            out@.len() == k,
            rest@ == before.skip(k as int),
            ranks@.len() == before.len(),
            before.len() <= i32::MAX,
            forall|q: int| 0 <= q < ranks@.len() ==> ranks@[q] < ranks@.len(),
            forall|q: int|
                0 <= q < k ==> match #[trigger] before[q] {
                    Some(JsonValue::Object(_)) => out@[q] matches Some(d) && d is Object
                        && d.member("order"@) == Some(JsonValue::Int(ranks@[q] as i64))
                        && forall|m: Seq<char>| m != "order"@ ==> #[trigger] d.member(m) == before[q]->Some_0.member(m),
                    _ => out@[q] == before[q],
                },
        decreases rest.len(),
    {
        let ghost rest0 = rest@;
        let item = rest.remove(0);
        assert(rest@ =~= before.skip(k + 1));
        assert(item == before[k as int]);
        let rank = ranks[k];
        let next = match item {
            Some(mut d) => {
                d.insert("order", JsonValue::Int(rank as i64));
                Some(d)
            },
            None => None,
        };
        out.push(next);
        k = k + 1;
    }
    *docs = out;
    proof {
        assert forall|i: int, j: int|
            0 <= i < ranks@.len() && 0 <= j < ranks@.len() && seq_lt(
                #[trigger] name_key(before[i]),
                #[trigger] name_key(before[j]),
            ) implies ranks@[i] < ranks@[j] by {
            assert(names@[i]@ == name_key(before[i]));
            assert(names@[j]@ == name_key(before[j]));
        }
    }
    ranks
}

} // verus!
