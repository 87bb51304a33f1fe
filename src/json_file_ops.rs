//! Template collections kept as one JSON file per category: the operations
//! on a category file's content.
use vstd::prelude::*;
use crate::json::{clone_strings, texts};
use crate::scan::{sort_summaries, summaries_sorted, summary_views};
use crate::text::{char_vec, str_eq};
use crate::types::{CategoryDefinition, CategoryView, ResourceSummary, SubCategoryDefinition, SummaryView};
use vstd::seq_lib::{to_multiset_contains, to_multiset_insert, to_multiset_remove};

verus! {

/// The content of one category file.
#[derive(Debug)]
pub struct CategoryJsonFile {
    pub key: String,
    pub name: String,
    pub icon: String,
    pub order: i32,
    pub templates: Vec<JsonTemplateEntry>,
}

/// One template of a category file.
#[derive(Debug)]
pub struct JsonTemplateEntry {
    pub id: String,
    pub name: String,
    pub description: String,
    pub content: String,
    pub variables: Vec<String>,
    pub order: i32,
}

/// A template together with the category it belongs to.
#[derive(Debug)]
pub struct JsonResourceDetail {
    pub id: String,
    pub name: String,
    pub description: String,
    pub content: String,
    pub variables: Vec<String>,
    pub order: i32,
    pub category_key: String,
    pub category_name: String,
}

/// The content of a [`JsonTemplateEntry`].
pub ghost struct TemplateView {
    pub id: Seq<char>,
    pub name: Seq<char>,
    pub description: Seq<char>,
    pub content: Seq<char>,
    pub variables: Seq<Seq<char>>,
    pub order: i32,
}

/// The content of a [`CategoryJsonFile`].
pub ghost struct CategoryFileView {
    pub key: Seq<char>,
    pub name: Seq<char>,
    pub icon: Seq<char>,
    pub order: i32,
    pub templates: Seq<TemplateView>,
}

impl View for JsonTemplateEntry {
    type V = TemplateView;

    open spec fn view(&self) -> TemplateView {
        TemplateView {
            id: self.id@,
            name: self.name@,
            description: self.description@,
            content: self.content@,
            variables: texts(self.variables@),
            order: self.order,
        }
    }
}

/// The contents of a list of templates.
pub open spec fn template_views(s: Seq<JsonTemplateEntry>) -> Seq<TemplateView> {
    s.map_values(|t: JsonTemplateEntry| t@)
}

impl View for CategoryJsonFile {
    type V = CategoryFileView;

    open spec fn view(&self) -> CategoryFileView {
        CategoryFileView {
            key: self.key@,
            name: self.name@,
            icon: self.icon@,
            order: self.order,
            templates: template_views(self.templates@),
        }
    }
}

/// The index of the first template with id `id`, if any.
pub open spec fn template_index(ts: Seq<TemplateView>, id: Seq<char>) -> Option<int> {
    if exists|i: int| 0 <= i < ts.len() && ts[i].id == id {
        Some(choose|i: int| 0 <= i < ts.len() && ts[i].id == id && forall|j: int| 0 <= j < i ==> ts[j].id != id)
    } else {
        None
    }
}

/// The icon that a category gets when none is given.
pub open spec fn default_icon() -> Seq<char> {
    "📋"@
}

/// The highest order among `ts`, or `-1` when there are none.
pub open spec fn max_template_order(ts: Seq<TemplateView>) -> int
    decreases ts.len(),
{
    if ts.len() == 0 {
        -1
    } else {
        let rest = max_template_order(ts.drop_last());
        if ts.last().order > rest {
            ts.last().order as int
        } else {
            rest
        }
    }
}

impl JsonTemplateEntry {
    /// A copy of the template.
    pub fn duplicate(&self) -> (r: JsonTemplateEntry)
        ensures
            r@ == self@,
    {
        JsonTemplateEntry {
            id: self.id.clone(),
            name: self.name.clone(),
            description: self.description.clone(),
            content: self.content.clone(),
            variables: clone_strings(&self.variables),
            order: self.order,
        }
    }
}

proof fn lemma_template_index(ts: Seq<TemplateView>, id: Seq<char>, i: int)
    requires
        0 <= i <= ts.len(),
        forall|j: int| 0 <= j < i ==> ts[j].id != id,
    ensures
        i < ts.len() && ts[i].id == id ==> template_index(ts, id) == Some(i),
        i == ts.len() ==> template_index(ts, id) is None,
{
    if i < ts.len() && ts[i].id == id {
        let k = choose|k: int| 0 <= k < ts.len() && ts[k].id == id && forall|j: int| 0 <= j < k ==> ts[j].id != id;
        assert(k == i);
    }
}

/// Index of the first template with id `id`.
fn find_template(ts: &Vec<JsonTemplateEntry>, id: &str) -> (r: Option<usize>)
    ensures
        match r {
            Some(i) => i < ts@.len() && template_index(template_views(ts@), id@) == Some(i as int),
            None => template_index(template_views(ts@), id@) is None,
        },
{
    let mut i: usize = 0;
    while i < ts.len()
        invariant
            i <= ts@.len(),
            forall|j: int| 0 <= j < i ==> template_views(ts@)[j].id != id@,
        decreases ts.len() - i,
    {
        if str_eq(ts[i].id.as_str(), id) {
            proof {
                lemma_template_index(template_views(ts@), id@, i as int);
            }
            return Some(i);
        }
        i = i + 1;
    }
    proof {
        lemma_template_index(template_views(ts@), id@, i as int);
    }
    None
}

/// A template of a category file, with the category's key and name.
/// Fails when the file has no template with that id.
pub fn read_json_template(cat_file: &CategoryJsonFile, template_id: &str) -> (r: Result<JsonResourceDetail, String>)
    ensures
        r is Err <==> template_index(cat_file@.templates, template_id@) is None,
        r matches Ok(d) ==> ({
            let t = cat_file@.templates[template_index(cat_file@.templates, template_id@)->Some_0];
            &&& d.id@ == t.id
            &&& d.name@ == t.name
            &&& d.description@ == t.description
            &&& d.content@ == t.content
            &&& texts(d.variables@) == t.variables
            &&& d.order == t.order
            &&& d.category_key@ == cat_file@.key
            &&& d.category_name@ == cat_file@.name
        }),
{
    match find_template(&cat_file.templates, template_id) {
        Some(i) => {
            let t = &cat_file.templates[i];
            assert(template_views(cat_file.templates@)[i as int] == t@);
            Ok(JsonResourceDetail {
                id: t.id.clone(),
                name: t.name.clone(),
                description: t.description.clone(),
                content: t.content.clone(),
                variables: clone_strings(&t.variables),
                order: t.order,
                category_key: cat_file.key.clone(),
                category_name: cat_file.name.clone(),
            })
        },
        None => Err("template not found".to_owned()),
    }
}

/// `ts` without the templates whose id is among `ids`.
pub open spec fn without_ids(ts: Seq<TemplateView>, ids: Seq<Seq<char>>) -> Seq<TemplateView>
    decreases ts.len(),
{
    if ts.len() == 0 {
        Seq::empty()
    } else {
        let prev = without_ids(ts.drop_last(), ids);
        if ids.contains(ts.last().id) {
            prev
        } else {
            prev.push(ts.last())
        }
    }
}

proof fn lemma_without_ids_len(ts: Seq<TemplateView>, ids: Seq<Seq<char>>)
    ensures
        without_ids(ts, ids).len() <= ts.len(),
        without_ids(ts, ids).len() == ts.len() <==> forall|i: int| 0 <= i < ts.len() ==> !ids.contains(#[trigger] ts[i].id),
    decreases ts.len(),
{
    if ts.len() > 0 {
        lemma_without_ids_len(ts.drop_last(), ids);
        if without_ids(ts, ids).len() == ts.len() {
            assert forall|i: int| 0 <= i < ts.len() implies !ids.contains(#[trigger] ts[i].id) by {
                if i < ts.len() - 1 {
                    assert(ts.drop_last()[i] == ts[i]);
                }
            }
        } else {
            if forall|i: int| 0 <= i < ts.len() ==> !ids.contains(#[trigger] ts[i].id) {
                assert forall|i: int| 0 <= i < ts.len() - 1 implies !ids.contains(#[trigger] ts.drop_last()[i].id) by {
                    assert(ts.drop_last()[i] == ts[i]);
                }
                assert(!ids.contains(ts[ts.len() - 1].id));
            }
        }
    }
}

/// The templates of `ts` whose id is not among `ids`, in order.
fn remove_ids(ts: Vec<JsonTemplateEntry>, ids: &Vec<String>) -> (r: Vec<JsonTemplateEntry>)
    ensures
        template_views(r@) == without_ids(template_views(ts@), texts(ids@)),
{
    let ghost all = template_views(ts@);
    let n = ts.len();
    let mut rest = ts;
    let mut out: Vec<JsonTemplateEntry> = Vec::new();
    let mut i: usize = 0;
    assert(template_views(out@) =~= without_ids(all.take(0), texts(ids@)));
    while rest.len() > 0
        invariant
            template_views(rest@) == all.skip(i as int),
            rest@.len() + i == all.len(),
            all.len() == n,
            template_views(out@) == without_ids(all.take(i as int), texts(ids@)),
        decreases rest.len(),
    {
        let ghost r0 = rest@;
        let t = rest.remove(0);
        assert(rest@ =~= r0.drop_first());
        assert(template_views(rest@) =~= template_views(r0).drop_first());
        assert(template_views(rest@) =~= all.skip(i + 1));
        assert(t@ == template_views(r0)[0]);
        assert(all.take(i + 1).drop_last() =~= all.take(i as int));
        assert(all.take(i + 1).last() == t@);
        let mut listed = false;
        let mut j: usize = 0;
        while j < ids.len()
            invariant
                j <= ids@.len(),
                listed == (exists|q: int| 0 <= q < j && ids@[q]@ == t.id@),
            decreases ids.len() - j,
        {
            if str_eq(ids[j].as_str(), t.id.as_str()) {
                listed = true;
            }
            j = j + 1;
        }
        proof {
            if listed {
                let q = choose|q: int| 0 <= q < j && ids@[q]@ == t.id@;
                assert(texts(ids@)[q] == t.id@);
            } else if texts(ids@).contains(t.id@) {
                let q = choose|q: int| 0 <= q < texts(ids@).len() && texts(ids@)[q] == t.id@;
                assert(ids@[q]@ == t.id@);
            }
        }
        if !listed {
            let ghost o0 = template_views(out@);
            out.push(t);
            assert(template_views(out@) =~= o0.push(t@));
        }
        i = i + 1;
    }
    assert(all.take(i as int) =~= all);
    out
}

/// Updates the name, description, content and variables of the first
/// template with id `template_id`. Fails, changing nothing, when there is
/// none.
pub fn save_json_template(
    cat_file: &mut CategoryJsonFile,
    template_id: &str,
    name: &str,
    description: &str,
    content: &str,
    variables: Vec<String>,
) -> (r: Result<(), String>)
    ensures
        r is Err <==> template_index(old(cat_file)@.templates, template_id@) is None,
        r is Err ==> final(cat_file)@ == old(cat_file)@,
        r is Ok ==> ({
            let i = template_index(old(cat_file)@.templates, template_id@)->Some_0;
            let t = old(cat_file)@.templates[i];
            final(cat_file)@ == CategoryFileView {
                templates: old(cat_file)@.templates.update(
                    i,
                    TemplateView {
                        id: t.id,
                        name: name@,
                        description: description@,
                        content: content@,
                        variables: texts(variables@),
                        order: t.order,
                    },
                ),
                ..old(cat_file)@
            }
        }),
{
    match find_template(&cat_file.templates, template_id) {
        Some(i) => {
            let id = cat_file.templates[i].id.clone();
            let order = cat_file.templates[i].order;
            let entry = JsonTemplateEntry {
                id,
                name: name.to_owned(),
                description: description.to_owned(),
                content: content.to_owned(),
                variables,
                order,
            };
            let ghost before = cat_file.templates@;
            cat_file.templates.set(i, entry);
            assert(template_views(cat_file.templates@) =~= template_views(before).update(i as int, entry@));
            Ok(())
        },
        None => Err("template not found".to_owned()),
    }
}

/// Removes every template with id `template_id`. Fails, changing nothing,
/// when there is none.
pub fn delete_json_template(cat_file: &mut CategoryJsonFile, template_id: &str) -> (r: Result<(), String>)
    ensures
        r is Err <==> template_index(old(cat_file)@.templates, template_id@) is None,
        r is Err ==> final(cat_file)@ == old(cat_file)@,
        r is Ok ==> final(cat_file)@ == (CategoryFileView {
            templates: without_ids(old(cat_file)@.templates, seq![template_id@]),
            ..old(cat_file)@
        }),
{
    if find_template(&cat_file.templates, template_id).is_none() {
        return Err("template not found".to_owned());
    }
    let ids = vec![template_id.to_owned()];
    assert(texts(ids@) =~= seq![template_id@]);
    let mut ts: Vec<JsonTemplateEntry> = Vec::new();
    core::mem::swap(&mut ts, &mut cat_file.templates);
    let kept = remove_ids(ts, &ids);
    cat_file.templates = kept;
    Ok(())
}

proof fn lemma_without_ids_same(ts: Seq<TemplateView>, ids: Seq<Seq<char>>)
    requires
        forall|i: int| 0 <= i < ts.len() ==> !ids.contains(#[trigger] ts[i].id),
    ensures
        without_ids(ts, ids) == ts,
    decreases ts.len(),
{
    if ts.len() > 0 {
        assert forall|i: int| 0 <= i < ts.len() - 1 implies !ids.contains(#[trigger] ts.drop_last()[i].id) by {
            assert(ts.drop_last()[i] == ts[i]);
        }
        lemma_without_ids_same(ts.drop_last(), ids);
        assert(!ids.contains(ts[ts.len() - 1].id));
        assert(ts.drop_last().push(ts.last()) =~= ts);
    }
}

/// The highest order among the templates, or `-1` when there are none.
pub fn highest_template_order(ts: &Vec<JsonTemplateEntry>) -> (r: i64)
    ensures
        r == max_template_order(template_views(ts@)),
{
    let mut best: i64 = -1;
    let mut i: usize = 0;
    assert(template_views(ts@).take(0) =~= Seq::<TemplateView>::empty());
    while i < ts.len()
        invariant
            i <= ts@.len(),
            best == max_template_order(template_views(ts@).take(i as int)),
            -1 <= best <= i32::MAX,
        decreases ts.len() - i,
    {
        assert(template_views(ts@).take(i + 1).drop_last() =~= template_views(ts@).take(i as int));
        assert(template_views(ts@).take(i + 1).last() == ts@[i as int]@);
        if ts[i].order as i64 > best {
            best = ts[i].order as i64;
        }
        i = i + 1;
    }
    assert(template_views(ts@).take(i as int) =~= template_views(ts@));
    best
}

/// A category file that does not exist yet: named after its key, with
/// the default icon and order 999.
pub fn new_category_file(key: &str) -> (r: CategoryJsonFile)
    ensures
        r@ == (CategoryFileView {
            key: key@,
            name: key@,
            icon: default_icon(),
            order: 999,
            templates: Seq::empty(),
        }),
{
    let r = CategoryJsonFile {
        key: key.to_owned(),
        name: key.to_owned(),
        icon: "📋".to_owned(),
        order: 999,
        templates: Vec::new(),
    };
    assert(template_views(r.templates@) =~= Seq::<TemplateView>::empty());
    r
}

/// The path by which a template is named: `category::id`.
pub open spec fn template_path(category: Seq<char>, id: Seq<char>) -> Seq<char> {
    category + "::"@ + id
}

/// Adds a template with the next order after the highest in the file, and
/// returns its path. Fails, changing nothing, when a template with that id
/// is there already or when the next order does not fit in an `i32`.
pub fn create_json_template(
    cat_file: &mut CategoryJsonFile,
    category_key: &str,
    id: &str,
    name: &str,
    description: &str,
    content: &str,
    variables: Vec<String>,
) -> (r: Result<String, String>)
    ensures
        r is Ok <==> template_index(old(cat_file)@.templates, id@) is None && max_template_order(
            old(cat_file)@.templates,
        ) < i32::MAX,
        r is Err ==> final(cat_file)@ == old(cat_file)@,
        r matches Ok(p) ==> p@ == template_path(category_key@, id@),
        r is Ok ==> final(cat_file)@ == (CategoryFileView {
            templates: old(cat_file)@.templates.push(
                TemplateView {
                    id: id@,
                    name: name@,
                    description: description@,
                    content: content@,
                    variables: texts(variables@),
                    order: (max_template_order(old(cat_file)@.templates) + 1) as i32,
                },
            ),
            ..old(cat_file)@
        }),
{
    if find_template(&cat_file.templates, id).is_some() {
        return Err("template id already exists".to_owned());
    }
    let top = highest_template_order(&cat_file.templates);
    if top >= i32::MAX as i64 {
        return Err("template order does not fit".to_owned());
    }
    let entry = JsonTemplateEntry {
        id: id.to_owned(),
        name: name.to_owned(),
        description: description.to_owned(),
        content: content.to_owned(),
        variables,
        order: (top + 1) as i32,
    };
    let ghost before = template_views(cat_file.templates@);
    cat_file.templates.push(entry);
    assert(template_views(cat_file.templates@) =~= before.push(entry@));
    let mut path = category_key.to_owned();
    path.append("::");
    path.append(id);
    Ok(path)
}

/// Takes the first template with id `template_id` out of the file. Fails,
/// changing nothing, when there is none.
pub fn take_json_template(cat_file: &mut CategoryJsonFile, template_id: &str) -> (r: Result<JsonTemplateEntry, String>)
    ensures
        r is Err <==> template_index(old(cat_file)@.templates, template_id@) is None,
        r is Err ==> final(cat_file)@ == old(cat_file)@,
        r matches Ok(t) ==> ({
            let i = template_index(old(cat_file)@.templates, template_id@)->Some_0;
            &&& t@ == old(cat_file)@.templates[i]
            &&& final(cat_file)@ == (CategoryFileView { templates: old(cat_file)@.templates.remove(i), ..old(cat_file)@ })
        }),
{
    match find_template(&cat_file.templates, template_id) {
        Some(i) => {
            let ghost before = cat_file.templates@;
            let t = cat_file.templates.remove(i);
            assert(template_views(cat_file.templates@) =~= template_views(before).remove(i as int));
            Ok(t)
        },
        None => Err("template not found".to_owned()),
    }
}

/// Appends a template to the file with the next order after the highest
/// there. Fails, changing nothing, when that order does not fit in an
/// `i32`.
pub fn append_json_template(cat_file: &mut CategoryJsonFile, template: JsonTemplateEntry) -> (r: Result<(), String>)
    ensures
        r is Ok <==> max_template_order(old(cat_file)@.templates) < i32::MAX,
        r is Err ==> final(cat_file)@ == old(cat_file)@,
        r is Ok ==> final(cat_file)@ == (CategoryFileView {
            templates: old(cat_file)@.templates.push(
                TemplateView { order: (max_template_order(old(cat_file)@.templates) + 1) as i32, ..template@ },
            ),
            ..old(cat_file)@
        }),
{
    let top = highest_template_order(&cat_file.templates);
    if top >= i32::MAX as i64 {
        return Err("template order does not fit".to_owned());
    }
    let mut moved = template;
    moved.order = (top + 1) as i32;
    let ghost before = template_views(cat_file.templates@);
    cat_file.templates.push(moved);
    assert(template_views(cat_file.templates@) =~= before.push(moved@));
    Ok(())
}

/// Moves the first template with id `template_id` from one category file
/// to the end of another, with the next order after the highest there.
/// Fails, changing neither, when the source has no such template or the
/// next order does not fit in an `i32`.
pub fn move_json_template(
    from_file: &mut CategoryJsonFile,
    template_id: &str,
    to_file: &mut CategoryJsonFile,
) -> (r: Result<(), String>)
    ensures
        r is Ok <==> template_index(old(from_file)@.templates, template_id@) is Some
            && max_template_order(old(to_file)@.templates) < i32::MAX,
        r is Err ==> final(from_file)@ == old(from_file)@ && final(to_file)@ == old(to_file)@,
        r is Ok ==> ({
            let i = template_index(old(from_file)@.templates, template_id@)->Some_0;
            let t = old(from_file)@.templates[i];
            &&& final(from_file)@ == (CategoryFileView { templates: old(from_file)@.templates.remove(i), ..old(from_file)@ })
            &&& final(to_file)@ == (CategoryFileView {
                templates: old(to_file)@.templates.push(
                    TemplateView { order: (max_template_order(old(to_file)@.templates) + 1) as i32, ..t },
                ),
                ..old(to_file)@
            })
        }),
{
    if find_template(&from_file.templates, template_id).is_none() {
        return Err("template not found".to_owned());
    }
    let top = highest_template_order(&to_file.templates);
    if top >= i32::MAX as i64 {
        return Err("template order does not fit".to_owned());
    }
    let t = match take_json_template(from_file, template_id) {
        Ok(t) => t,
        Err(e) => return Err(e),
    };
    append_json_template(to_file, t)
}

/// `ts` after giving each listed id, in turn, its order: each pair sets
/// the order of the first template with that id, if there is one.
pub open spec fn apply_orders(ts: Seq<TemplateView>, pairs: Seq<(Seq<char>, i32)>) -> Seq<TemplateView>
    decreases pairs.len(),
{
    if pairs.len() == 0 {
        ts
    } else {
        let prev = apply_orders(ts, pairs.drop_last());
        let (id, order) = pairs.last();
        match template_index(prev, id) {
            Some(i) => prev.update(i, TemplateView { order, ..prev[i] }),
            None => prev,
        }
    }
}

/// The contents of a list of (id, order) pairs.
pub open spec fn pair_views(pairs: Seq<(String, i32)>) -> Seq<(Seq<char>, i32)> {
    pairs.map_values(|p: (String, i32)| (p.0@, p.1))
}

/// Gives templates of one category file new orders: each (id, order) pair,
/// in turn, sets the order of the first template with that id; ids that
/// the file does not hold are passed over.
pub fn reorder_json_templates_in_category(
    cat_file: &mut CategoryJsonFile,
    id_order_pairs: &Vec<(String, i32)>,
) -> (r: Result<(), String>)
    ensures
        r is Ok,
        final(cat_file)@ == (CategoryFileView {
            templates: apply_orders(old(cat_file)@.templates, pair_views(id_order_pairs@)),
            ..old(cat_file)@
        }),
{
    let ghost start = template_views(cat_file.templates@);
    let mut k: usize = 0;
    assert(pair_views(id_order_pairs@).take(0) =~= Seq::<(Seq<char>, i32)>::empty());
    while k < id_order_pairs.len()
        invariant
            k <= id_order_pairs@.len(),
            cat_file.key == old(cat_file).key,
            cat_file.name == old(cat_file).name,
            cat_file.icon == old(cat_file).icon,
            cat_file.order == old(cat_file).order,
            start == template_views(old(cat_file).templates@),
            template_views(cat_file.templates@) == apply_orders(start, pair_views(id_order_pairs@).take(k as int)),
        decreases id_order_pairs.len() - k,
    {
        let ghost ps = pair_views(id_order_pairs@).take(k + 1);
        assert(ps.drop_last() =~= pair_views(id_order_pairs@).take(k as int));
        assert(ps.last() == (id_order_pairs@[k as int].0@, id_order_pairs@[k as int].1));
        let id = &id_order_pairs[k].0;
        let order = id_order_pairs[k].1;
        match find_template(&cat_file.templates, id.as_str()) {
            Some(i) => {
                let ghost before = template_views(cat_file.templates@);
                let old_t = cat_file.templates[i].duplicate();
                let t = JsonTemplateEntry { order, ..old_t };
                cat_file.templates.set(i, t);
                assert(template_views(cat_file.templates@) =~= before.update(
                    i as int,
                    TemplateView { order, ..before[i as int] },
                ));
            },
            None => {},
        }
        k = k + 1;
    }
    assert(pair_views(id_order_pairs@).take(k as int) =~= pair_views(id_order_pairs@));
    Ok(())
}

/// The index of the first `::` in `s`, if there is one.
pub open spec fn separator_index(s: Seq<char>) -> Option<int>
    decreases s.len(),
{
    if s.len() < 2 {
        None
    } else if s[0] == ':' && s[1] == ':' {
        Some(0)
    } else {
        match separator_index(s.drop_first()) {
            Some(i) => Some(i + 1),
            None => None,
        }
    }
}

/// A template path split at its first `::` into category and id.
pub open spec fn split_path(s: Seq<char>) -> Option<(Seq<char>, Seq<char>)> {
    match separator_index(s) {
        Some(i) => Some((s.take(i), s.skip(i + 2))),
        None => None,
    }
}

proof fn lemma_separator_at(s: Seq<char>, i: int)
    requires
        0 <= i,
        i + 1 <= s.len(),
        forall|j: int| 0 <= j < i ==> !(#[trigger] s[j] == ':' && s[j + 1] == ':'),
    ensures
        i + 1 < s.len() && s[i] == ':' && s[i + 1] == ':' ==> separator_index(s) == Some(i),
        i + 1 == s.len() ==> separator_index(s) is None,
    decreases i,
{
    if i > 0 {
        lemma_separator_at(s.drop_first(), i - 1);
    }
}

/// Splits a template path `category::id` at its first `::`.
pub fn split_template_path(path: &str) -> (r: Option<(String, String)>)
    ensures
        match r {
            Some((c, i)) => split_path(path@) == Some((c@, i@)),
            None => split_path(path@) is None,
        },
{
    let c = char_vec(path);
    if c.len() < 2 {
        return None;
    }
    let mut j: usize = 0;
    while j + 1 < c.len() && !(c[j] == ':' && c[j + 1] == ':')
        invariant
            j + 1 <= c@.len(),
            c@ == path@,
            forall|q: int| 0 <= q < j ==> !(#[trigger] c@[q] == ':' && c@[q + 1] == ':'),
        decreases c.len() - j,
    {
        j = j + 1;
    }
    proof {
        lemma_separator_at(c@, j as int);
    }
    if j + 1 < c.len() {
        let cat = path.substring_char(0, j).to_owned();
        let id = path.substring_char(j + 2, c.len()).to_owned();
        assert(c@.subrange(0, j as int) =~= c@.take(j as int));
        assert(c@.subrange(j + 2, c@.len() as int) =~= c@.skip(j + 2));
        Some((cat, id))
    } else {
        None
    }
}

/// The ids that the template paths name in category `category`.
pub open spec fn ids_in(paths: Seq<Seq<char>>, category: Seq<char>) -> Seq<Seq<char>>
    decreases paths.len(),
{
    if paths.len() == 0 {
        Seq::empty()
    } else {
        let prev = ids_in(paths.drop_last(), category);
        match split_path(paths.last()) {
            Some((c, id)) => if c == category {
                prev.push(id)
            } else {
                prev
            },
            None => prev,
        }
    }
}

/// The ids that the template paths name in category `category`.
pub fn template_ids_in(paths: &Vec<String>, category: &str) -> (r: Vec<String>)
    ensures
        texts(r@) == ids_in(texts(paths@), category@),
{
    let mut out: Vec<String> = Vec::new();
    let mut k: usize = 0;
    assert(texts(paths@).take(0) =~= Seq::<Seq<char>>::empty());
    assert(texts(out@) =~= Seq::<Seq<char>>::empty());
    while k < paths.len()
        invariant
            k <= paths@.len(),
            texts(out@) == ids_in(texts(paths@).take(k as int), category@),
        decreases paths.len() - k,
    {
        assert(texts(paths@).take(k + 1).drop_last() =~= texts(paths@).take(k as int));
        assert(texts(paths@).take(k + 1).last() == paths@[k as int]@);
        match split_template_path(paths[k].as_str()) {
            Some((c, id)) => {
                if str_eq(c.as_str(), category) {
                    let ghost o0 = texts(out@);
                    out.push(id);
                    assert(texts(out@) =~= o0.push(id@));
                }
            },
            None => {},
        }
        k = k + 1;
    }
    assert(texts(paths@).take(k as int) =~= texts(paths@));
    out
}

/// Removes from one category file every template that the paths name in
/// its category, and returns how many were removed.
pub fn batch_delete_json_templates(cat_file: &mut CategoryJsonFile, category_key: &str, paths: &Vec<String>) -> (r: u32)
    requires
        old(cat_file)@.templates.len() <= u32::MAX,
    ensures
        final(cat_file)@ == (CategoryFileView {
            templates: without_ids(old(cat_file)@.templates, ids_in(texts(paths@), category_key@)),
            ..old(cat_file)@
        }),
        r as int == old(cat_file)@.templates.len() - final(cat_file)@.templates.len(),
{
    let ids = template_ids_in(paths, category_key);
    let mut ts: Vec<JsonTemplateEntry> = Vec::new();
    core::mem::swap(&mut ts, &mut cat_file.templates);
    let before = ts.len();
    let ghost tv = template_views(ts@);
    let kept = remove_ids(ts, &ids);
    proof {
        lemma_without_ids_len(tv, texts(ids@));
    }
    let after = kept.len();
    cat_file.templates = kept;
    (before - after) as u32
}

/// The distinct categories that the template paths name, in the order in
/// which they first occur.
pub open spec fn categories_in(paths: Seq<Seq<char>>) -> Seq<Seq<char>>
    decreases paths.len(),
{
    if paths.len() == 0 {
        Seq::empty()
    } else {
        let prev = categories_in(paths.drop_last());
        match split_path(paths.last()) {
            Some((c, _)) => if prev.contains(c) {
                prev
            } else {
                prev.push(c)
            },
            None => prev,
        }
    }
}

/// The distinct categories that the template paths name.
pub fn template_categories(paths: &Vec<String>) -> (r: Vec<String>)
    ensures
        texts(r@) == categories_in(texts(paths@)),
{
    let mut out: Vec<String> = Vec::new();
    let mut k: usize = 0;
    assert(texts(paths@).take(0) =~= Seq::<Seq<char>>::empty());
    assert(texts(out@) =~= Seq::<Seq<char>>::empty());
    while k < paths.len()
        invariant
            k <= paths@.len(),
            texts(out@) == categories_in(texts(paths@).take(k as int)),
        decreases paths.len() - k,
    {
        assert(texts(paths@).take(k + 1).drop_last() =~= texts(paths@).take(k as int));
        assert(texts(paths@).take(k + 1).last() == paths@[k as int]@);
        match split_template_path(paths[k].as_str()) {
            Some((c, _)) => {
                let mut seen = false;
                let mut j: usize = 0;
                while j < out.len()
                    invariant
                        j <= out@.len(),
                        seen == (exists|q: int| 0 <= q < j && out@[q]@ == c@),
                    decreases out.len() - j,
                {
                    if str_eq(out[j].as_str(), c.as_str()) {
                        seen = true;
                    }
                    j = j + 1;
                }
                proof {
                    if seen {
                        let q = choose|q: int| 0 <= q < j && out@[q]@ == c@;
                        assert(texts(out@)[q] == c@);
                    } else if texts(out@).contains(c@) {
                        let q = choose|q: int| 0 <= q < texts(out@).len() && texts(out@)[q] == c@;
                        assert(out@[q]@ == c@);
                    }
                }
                if !seen {
                    let ghost o0 = texts(out@);
                    out.push(c);
                    assert(texts(out@) =~= o0.push(c@));
                }
            },
            None => {},
        }
        k = k + 1;
    }
    assert(texts(paths@).take(k as int) =~= texts(paths@));
    out
}

/// Reorders templates given by path and order alone. Without a data
/// directory no file can be named, so nothing changes; the paths are still
/// read and grouped by category.
pub fn reorder_json_templates(pairs: Vec<(String, i32)>) -> (r: Result<(), String>)
    ensures
        r is Ok,
{
    let mut paths: Vec<String> = Vec::new();
    let mut rest = pairs;
    while rest.len() > 0
        decreases rest.len(),
    {
        let (path, _) = rest.remove(0);
        paths.push(path);
    }
    let _groups = template_categories(&paths);
    Ok(())
}

/// The category file after its name, icon and order are set: the existing
/// file with those changed, or a new empty one with `category_key`.
pub fn save_json_category(
    existing: Option<CategoryJsonFile>,
    category_key: &str,
    name: &str,
    icon: &str,
    order: i32,
) -> (r: CategoryJsonFile)
    ensures
        r@.name == name@,
        r@.icon == icon@,
        r@.order == order,
        match existing {
            Some(f) => r@.key == f@.key && r@.templates == f@.templates,
            None => r@.key == category_key@ && r@.templates.len() == 0,
        },
{
    match existing {
        Some(f) => CategoryJsonFile {
            key: f.key,
            name: name.to_owned(),
            icon: icon.to_owned(),
            order,
            templates: f.templates,
        },
        None => {
            let r = CategoryJsonFile {
                key: category_key.to_owned(),
                name: name.to_owned(),
                icon: icon.to_owned(),
                order,
                templates: Vec::new(),
            };
            assert(template_views(r.templates@) =~= Seq::<TemplateView>::empty());
            r
        },
    }
}

/// The summary under which a template of a category file is listed.
pub open spec fn template_summary(f: CategoryFileView, t: TemplateView) -> SummaryView {
    SummaryView {
        id: t.id,
        name: t.name,
        description: t.description,
        icon: f.icon,
        major_category: f.key,
        sub_category: Seq::empty(),
        tags: Seq::empty(),
        order: t.order,
        enabled: true,
        source: "builtin"@,
        path: template_path(f.key, t.id),
    }
}

/// The summaries of the first `n` templates of a category file.
pub open spec fn file_summaries(f: CategoryFileView, n: int) -> Seq<SummaryView>
    decreases n,
{
    if n <= 0 {
        Seq::empty()
    } else {
        file_summaries(f, n - 1).push(template_summary(f, f.templates[n - 1]))
    }
}

/// The summaries of all templates of a list of category files, in order.
pub open spec fn files_summaries(fs: Seq<CategoryFileView>) -> Seq<SummaryView>
    decreases fs.len(),
{
    if fs.len() == 0 {
        Seq::empty()
    } else {
        files_summaries(fs.drop_last()) + file_summaries(fs.last(), fs.last().templates.len() as int)
    }
}

/// The contents of a list of category files.
pub open spec fn file_views(fs: Seq<CategoryJsonFile>) -> Seq<CategoryFileView> {
    fs.map_values(|f: CategoryJsonFile| f@)
}

/// Lists the templates of the category files of a data directory, one
/// summary each, sorted by category, then order, then name.
pub fn scan_json_resources(files: &Vec<CategoryJsonFile>) -> (r: Vec<ResourceSummary>)
    ensures
        summary_views(r@).to_multiset() == files_summaries(file_views(files@)).to_multiset(),
        summaries_sorted(summary_views(r@)),
{
    let mut out: Vec<ResourceSummary> = Vec::new();
    let mut k: usize = 0;
    assert(file_views(files@).take(0) =~= Seq::<CategoryFileView>::empty());
    assert(summary_views(out@) =~= Seq::<SummaryView>::empty());
    proof {
        reveal_strlit("builtin");
        reveal_strlit("::");
    }
    while k < files.len()
        invariant
            k <= files@.len(),
            summary_views(out@) == files_summaries(file_views(files@).take(k as int)),
        decreases files.len() - k,
    {
        let f = &files[k];
        let ghost base = summary_views(out@);
        let mut j: usize = 0;
        while j < f.templates.len()
            invariant
                j <= f.templates@.len(),
                f == files@[k as int],
                summary_views(out@) == base + file_summaries(f@, j as int),
            decreases f.templates.len() - j,
        {
            let t = &f.templates[j];
            let mut path = f.key.clone();
            path.append("::");
            path.append(t.id.as_str());
            let e: Vec<String> = Vec::new();
            let x = ResourceSummary {
                id: t.id.clone(),
                name: t.name.clone(),
                description: t.description.clone(),
                icon: f.icon.clone(),
                major_category: f.key.clone(),
                sub_category: String::new(),
                tags: e,
                order: t.order,
                enabled: true,
                source: "builtin".to_owned(),
                path,
            };
            assert(template_views(f.templates@)[j as int] == t@);
            assert(texts(x.tags@) =~= Seq::<Seq<char>>::empty());
            assert(x@ == template_summary(f@, f@.templates[j as int]));
            let ghost o0 = summary_views(out@);
            out.push(x);
            assert(summary_views(out@) =~= o0.push(x@));
            assert(base + file_summaries(f@, j + 1) =~= (base + file_summaries(f@, j as int)).push(x@));
            j = j + 1;
        }
        assert(file_views(files@).take(k + 1).drop_last() =~= file_views(files@).take(k as int));
        assert(file_views(files@).take(k + 1).last() == f@);
        k = k + 1;
    }
    assert(file_views(files@).take(k as int) =~= file_views(files@));
    sort_summaries(out)
}

/// The category that a category file describes; an empty icon becomes the
/// default one.
pub open spec fn file_category(f: CategoryFileView) -> CategoryView {
    CategoryView {
        key: f.key,
        name: f.name,
        icon: Some(if f.icon.len() == 0 { default_icon() } else { f.icon }),
        order: f.order,
        sub_category_count: 0,
    }
}

/// The contents of a list of categories.
pub open spec fn category_views(s: Seq<CategoryDefinition>) -> Seq<CategoryView> {
    s.map_values(|c: CategoryDefinition| c@)
}

/// Sorts categories by order.
fn sort_categories(v: Vec<CategoryDefinition>) -> (r: Vec<CategoryDefinition>)
    ensures
        category_views(r@).to_multiset() == category_views(v@).to_multiset(),
        forall|i: int, j: int| 0 <= i < j < r@.len() ==> r@[i].order <= r@[j].order,
{
    broadcast use vstd::multiset::group_multiset_axioms, vstd::seq_lib::group_to_multiset_ensures;

    let ghost all = category_views(v@).to_multiset();
    let mut rest = v;
    let mut out: Vec<CategoryDefinition> = Vec::new();
    assert(category_views(out@) =~= Seq::<CategoryView>::empty());
    assert(category_views(out@).to_multiset().add(category_views(rest@).to_multiset()) =~= all);
    while rest.len() > 0
        invariant
            category_views(out@).to_multiset().add(category_views(rest@).to_multiset()) == all,
            forall|i: int, j: int| 0 <= i < j < out@.len() ==> out@[i].order <= out@[j].order,
        decreases rest.len(),
    {
        let ghost rest0 = rest@;
        let ghost out0 = out@;
        let x = rest.remove(0);
        let mut p: usize = 0;
        while p < out.len() && out[p].order <= x.order
            invariant
                p <= out@.len(),
                out@ == out0,
                forall|q: int| 0 <= q < p ==> out@[q].order <= x.order,
            decreases out.len() - p,
        {
            p = p + 1;
        }
        out.insert(p, x);
        proof {
            assert(category_views(rest@) =~= category_views(rest0).remove(0));
            assert(category_views(out@) =~= category_views(out0).insert(p as int, x@));
            assert(category_views(rest0)[0] == x@);
            to_multiset_contains(category_views(rest0), x@);
            to_multiset_remove(category_views(rest0), 0);
            to_multiset_insert(category_views(out0), p as int, x@);
            let ma = category_views(out0).to_multiset();
            let mb = category_views(rest0).to_multiset();
            assert(ma.insert(x@).add(mb.remove(x@)) =~= ma.add(mb));
            assert forall|i: int, j: int| 0 <= i < j < out@.len() implies out@[i].order <= out@[j].order by {
                if j < p {
                    assert(out@[i] == out0[i] && out@[j] == out0[j]);
                } else if j == p {
                    assert(out@[i] == out0[i]);
                } else if i == p {
                    assert(out@[j] == out0[j - 1]);
                    assert(out0[p as int].order > x.order);
                } else if i < p {
                    assert(out@[i] == out0[i] && out@[j] == out0[j - 1]);
                } else {
                    assert(out@[i] == out0[i - 1] && out@[j] == out0[j - 1]);
                }
            }
        }
    }
    assert(category_views(rest@) =~= Seq::<CategoryView>::empty());
    assert(category_views(out@).to_multiset() =~= all);
    out
}

/// The categories that the category files of a data directory describe,
/// sorted by order.
pub fn read_json_categories(files: &Vec<CategoryJsonFile>) -> (r: Vec<CategoryDefinition>)
    ensures
        category_views(r@).to_multiset() == file_views(files@).map_values(|f: CategoryFileView| file_category(f)).to_multiset(),
        forall|i: int, j: int| 0 <= i < j < r@.len() ==> r@[i].order <= r@[j].order,
{
    let mut out: Vec<CategoryDefinition> = Vec::new();
    let mut k: usize = 0;
    let ghost target = file_views(files@).map_values(|f: CategoryFileView| file_category(f));
    proof {
        reveal_strlit("📋");
    }
    while k < files.len()
        invariant
            k <= files@.len(),
            target == file_views(files@).map_values(|f: CategoryFileView| file_category(f)),
            category_views(out@) == target.take(k as int),
        decreases files.len() - k,
    {
        let f = &files[k];
        let icon = if f.icon.unicode_len() == 0 {
            "📋".to_owned()
        } else {
            f.icon.clone()
        };
        let subs: Vec<SubCategoryDefinition> = Vec::new();
        let c = CategoryDefinition {
            key: f.key.clone(),
            name: f.name.clone(),
            icon: Some(icon),
            order: f.order,
            sub_categories: subs,
        };
        assert(c@ == file_category(f@));
        let ghost o0 = category_views(out@);
        out.push(c);
        assert(category_views(out@) =~= o0.push(c@));
        assert(file_views(files@)[k as int] == f@);
        assert(target[k as int] == file_category(f@));
        assert(category_views(out@) =~= target.take(k + 1));
        k = k + 1;
    }
    assert(target.take(k as int) =~= target);
    sort_categories(out)
}

} // verus!
