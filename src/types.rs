//! The records that the library reads, keeps and hands out: resource
//! manifests and summaries, category metadata and small configuration items.
use vstd::prelude::*;
use crate::json::{
    bool_or, clone_strings, lookup, lemma_lookup_at, i32_or, strings_to_json, text_or, texts, texts_or_empty, JsonValue,
};

verus! {

/// One resource as a listing shows it.
#[derive(Debug)]
pub struct ResourceSummary {
    pub id: String,
    pub name: String,
    pub description: String,
    pub icon: String,
    pub major_category: String,
    pub sub_category: String,
    pub tags: Vec<String>,
    pub order: i32,
    pub enabled: bool,
    pub source: String,
    pub path: String,
}

/// The content of a [`ResourceSummary`].
pub ghost struct SummaryView {
    pub id: Seq<char>,
    pub name: Seq<char>,
    pub description: Seq<char>,
    pub icon: Seq<char>,
    pub major_category: Seq<char>,
    pub sub_category: Seq<char>,
    pub tags: Seq<Seq<char>>,
    pub order: i32,
    pub enabled: bool,
    pub source: Seq<char>,
    pub path: Seq<char>,
}

impl View for ResourceSummary {
    type V = SummaryView;

    open spec fn view(&self) -> SummaryView {
        SummaryView {
            id: self.id@,
            name: self.name@,
            description: self.description@,
            icon: self.icon@,
            major_category: self.major_category@,
            sub_category: self.sub_category@,
            tags: texts(self.tags@),
            order: self.order,
            enabled: self.enabled,
            source: self.source@,
            path: self.path@,
        }
    }
}

/// A sub-category of a category.
#[derive(Debug)]
pub struct SubCategoryDefinition {
    pub key: String,
    pub name: String,
    pub icon: Option<String>,
    pub order: i32,
}

/// A category, with its sub-categories.
#[derive(Debug)]
pub struct CategoryDefinition {
    pub key: String,
    pub name: String,
    pub icon: Option<String>,
    pub order: i32,
    pub sub_categories: Vec<SubCategoryDefinition>,
}

/// The category metadata of a data directory.
#[derive(Debug)]
pub struct MetaConfig {
    pub schema_version: String,
    pub resource_type: String,
    pub categories: Vec<CategoryDefinition>,
}

/// The content of a [`CategoryDefinition`], without its sub-categories.
pub ghost struct CategoryView {
    pub key: Seq<char>,
    pub name: Seq<char>,
    pub icon: Option<Seq<char>>,
    pub order: i32,
    pub sub_category_count: nat,
}

impl View for CategoryDefinition {
    type V = CategoryView;

    open spec fn view(&self) -> CategoryView {
        CategoryView {
            key: self.key@,
            name: self.name@,
            icon: match self.icon {
                Some(i) => Some(i@),
                None => None,
            },
            order: self.order,
            sub_category_count: self.sub_categories@.len(),
        }
    }
}

/// The metadata of a data directory that has none written: schema version
/// `1.0`, no resource type, no categories.
pub fn default_meta() -> (r: MetaConfig)
    ensures
        r.schema_version@ == "1.0"@,
        r.resource_type@.len() == 0,
        r.categories@.len() == 0,
{
    MetaConfig { schema_version: "1.0".to_owned(), resource_type: String::new(), categories: Vec::new() }
}

/// A file attached to a new resource: its name and its text.
#[derive(Debug)]
pub struct ContentFileEntry {
    pub filename: String,
    pub content: String,
}

/// One AI service of the list shared with the main application.
#[derive(Debug)]
pub struct SharedAIServiceItem {
    pub id: String,
    pub name: String,
    pub provider: String,
    pub api_key: String,
    pub model: String,
    pub base_url: String,
    pub enabled: bool,
}

/// A request to set one field on several resources.
#[derive(Debug)]
pub struct BatchUpdateRequest {
    pub resource_paths: Vec<String>,
    pub field: String,
    pub value: JsonValue,
}

/// The default of a manifest's `enabled` member.
pub fn default_true() -> (r: bool)
    ensures
        r,
{
    true
}

/// The default of a manifest's `source` member.
pub fn default_builtin() -> (r: String)
    ensures
        r@ == seq!['b', 'u', 'i', 'l', 't', 'i', 'n'],
{
    let r = "builtin".to_owned();
    proof {
        reveal_strlit("builtin");
    }
    r
}

/// The default token limit of an AI service: none.
pub fn default_max_tokens() -> (r: u32)
    ensures
        r == 0,
{
    0
}

/// The descriptor of one resource, as its manifest file holds it.
#[derive(Debug)]
pub struct GenericManifest {
    pub id: String,
    pub name: String,
    pub description: String,
    pub icon: String,
    pub version: String,
    /// A name, an object with a `name` member, or anything else.
    pub author: JsonValue,
    pub resource_type: String,
    pub major_category: String,
    pub sub_category: String,
    pub tags: Vec<String>,
    pub order: i32,
    pub enabled: bool,
    pub source: String,
    pub roles: Vec<String>,
    pub created_at: String,
    pub updated_at: String,
}

/// The content of a [`GenericManifest`].
pub ghost struct ManifestView {
    pub id: Seq<char>,
    pub name: Seq<char>,
    pub description: Seq<char>,
    pub icon: Seq<char>,
    pub version: Seq<char>,
    pub author: JsonValue,
    pub resource_type: Seq<char>,
    pub major_category: Seq<char>,
    pub sub_category: Seq<char>,
    pub tags: Seq<Seq<char>>,
    pub order: i32,
    pub enabled: bool,
    pub source: Seq<char>,
    pub roles: Seq<Seq<char>>,
    pub created_at: Seq<char>,
    pub updated_at: Seq<char>,
}

impl View for GenericManifest {
    type V = ManifestView;

    open spec fn view(&self) -> ManifestView {
        ManifestView {
            id: self.id@,
            name: self.name@,
            description: self.description@,
            icon: self.icon@,
            version: self.version@,
            author: self.author,
            resource_type: self.resource_type@,
            major_category: self.major_category@,
            sub_category: self.sub_category@,
            tags: texts(self.tags@),
            order: self.order,
            enabled: self.enabled,
            source: self.source@,
            roles: texts(self.roles@),
            created_at: self.created_at@,
            updated_at: self.updated_at@,
        }
    }
}

/// The manifest that a JSON document describes, or `None` when it does
/// not describe one: it must be an object with a string `id`; the other
/// members may be missing (then they take their defaults: empty, `0`,
/// enabled, source `builtin`, author `null`) but, when present, must have
/// their type.
pub open spec fn decode_manifest(doc: JsonValue) -> Option<ManifestView> {
    let id = doc.member("id"@);
    let name = text_or(doc.member("name"@), Seq::empty());
    let description = text_or(doc.member("description"@), Seq::empty());
    let icon = text_or(doc.member("icon"@), Seq::empty());
    let version = text_or(doc.member("version"@), Seq::empty());
    let resource_type = text_or(doc.member("resourceType"@), Seq::empty());
    let major = text_or(doc.member("majorCategory"@), Seq::empty());
    let sub = text_or(doc.member("subCategory"@), Seq::empty());
    let tags = texts_or_empty(doc.member("tags"@));
    let order = i32_or(doc.member("order"@), 0);
    let enabled = bool_or(doc.member("enabled"@), true);
    let source = text_or(doc.member("source"@), "builtin"@);
    let roles = texts_or_empty(doc.member("roles"@));
    let created = text_or(doc.member("createdAt"@), Seq::empty());
    let updated = text_or(doc.member("updatedAt"@), Seq::empty());
    if id matches Some(JsonValue::Str(_)) && name is Some && description is Some
        && icon is Some && version is Some && resource_type is Some && major is Some
        && sub is Some && tags is Some && order is Some && enabled is Some && source is Some
        && roles is Some && created is Some && updated is Some {
        Some(
            ManifestView {
                id: id->Some_0->Str_0@,
                name: name->Some_0,
                description: description->Some_0,
                icon: icon->Some_0,
                version: version->Some_0,
                author: match doc.member("author"@) {
                    Some(a) => a,
                    None => JsonValue::Null,
                },
                resource_type: resource_type->Some_0,
                major_category: major->Some_0,
                sub_category: sub->Some_0,
                tags: tags->Some_0,
                order: order->Some_0,
                enabled: enabled->Some_0,
                source: source->Some_0,
                roles: roles->Some_0,
                created_at: created->Some_0,
                updated_at: updated->Some_0,
            },
        )
    } else {
        None
    }
}

/// The display name of an author value: the string itself, or the `name`
/// string of an object, else empty.
pub open spec fn author_name_of(author: JsonValue) -> Seq<char> {
    match author {
        JsonValue::Str(s) => s@,
        JsonValue::Object(_) => match author.member("name"@) {
            Some(JsonValue::Str(s)) => s@,
            _ => Seq::empty(),
        },
        _ => Seq::empty(),
    }
}

/// The summary of a manifest found at `path`.
pub open spec fn summary_of(m: ManifestView, path: Seq<char>) -> SummaryView {
    SummaryView {
        id: m.id,
        name: m.name,
        description: m.description,
        icon: m.icon,
        major_category: m.major_category,
        sub_category: m.sub_category,
        tags: m.tags,
        order: m.order,
        enabled: m.enabled,
        source: m.source,
        path,
    }
}

impl GenericManifest {
    /// Reads a manifest from a JSON document.
    pub fn from_json(doc: JsonValue) -> (r: Result<GenericManifest, String>)
        ensures
            r is Ok <==> decode_manifest(doc) is Some,
            r matches Ok(m) ==> decode_manifest(doc) == Some(m@),
    {
        let id = match doc.get("id") {
            Some(JsonValue::Str(s)) => s.clone(),
            _ => return Err("manifest has no string id".to_owned()),
        };
        proof {
            reveal_strlit("");
            assert(""@ =~= Seq::<char>::empty());
        }
        let name = doc.text_member("name", "");
        let description = doc.text_member("description", "");
        let icon = doc.text_member("icon", "");
        let version = doc.text_member("version", "");
        let resource_type = doc.text_member("resourceType", "");
        let major_category = doc.text_member("majorCategory", "");
        let sub_category = doc.text_member("subCategory", "");
        let tags = doc.texts_member("tags");
        let order = doc.i32_member("order", 0);
        let enabled = doc.bool_member("enabled", true);
        let source = doc.text_member("source", "builtin");
        let roles = doc.texts_member("roles");
        let created_at = doc.text_member("createdAt", "");
        let updated_at = doc.text_member("updatedAt", "");
        let is_object = match &doc {
            JsonValue::Object(_) => true,
            _ => false,
        };
        if !is_object {
            return Err("manifest is not an object".to_owned());
        }
        match (name, description, icon, version, resource_type, major_category, sub_category) {
            (Some(name), Some(description), Some(icon), Some(version), Some(resource_type), Some(major_category), Some(sub_category)) => {
                match (tags, order, enabled, source, roles, created_at, updated_at) {
                    (Some(tags), Some(order), Some(enabled), Some(source), Some(roles), Some(created_at), Some(updated_at)) => {
                        let author = match doc.into_member("author") {
                            Some(a) => a,
                            None => JsonValue::Null,
                        };
                        let ghost d = doc;
                        let m = GenericManifest {
                            id,
                            name,
                            description,
                            icon,
                            version,
                            author,
                            resource_type,
                            major_category,
                            sub_category,
                            tags,
                            order,
                            enabled,
                            source,
                            roles,
                            created_at,
                            updated_at,
                        };
                        assert(decode_manifest(d)->Some_0 == m@);
                        Ok(m)
                    },
                    _ => Err("manifest member has the wrong type".to_owned()),
                }
            },
            _ => Err("manifest member has the wrong type".to_owned()),
        }
    }

    /// The manifest as a JSON document, with every member written out. The
    /// document decodes to this manifest, so [`GenericManifest::from_json`]
    /// reads it back equal, field for field.
    pub fn to_json(self) -> (r: JsonValue)
        ensures
            decode_manifest(r) == Some(self@),
    {
        let ghost v = self@;
        let tags = strings_to_json(&self.tags);
        let roles = strings_to_json(&self.roles);
        let fields: Vec<(String, JsonValue)> = vec![
            ("id".to_owned(), JsonValue::Str(self.id)),
            ("name".to_owned(), JsonValue::Str(self.name)),
            ("description".to_owned(), JsonValue::Str(self.description)),
            ("icon".to_owned(), JsonValue::Str(self.icon)),
            ("version".to_owned(), JsonValue::Str(self.version)),
            ("author".to_owned(), self.author),
            ("resourceType".to_owned(), JsonValue::Str(self.resource_type)),
            ("majorCategory".to_owned(), JsonValue::Str(self.major_category)),
            ("subCategory".to_owned(), JsonValue::Str(self.sub_category)),
            ("tags".to_owned(), tags),
            ("order".to_owned(), JsonValue::Int(self.order as i64)),
            ("enabled".to_owned(), JsonValue::Bool(self.enabled)),
            ("source".to_owned(), JsonValue::Str(self.source)),
            ("roles".to_owned(), roles),
            ("createdAt".to_owned(), JsonValue::Str(self.created_at)),
            ("updatedAt".to_owned(), JsonValue::Str(self.updated_at)),
        ];
        proof {
            reveal_strlit("id");
            reveal_strlit("name");
            reveal_strlit("description");
            reveal_strlit("icon");
            reveal_strlit("version");
            reveal_strlit("author");
            reveal_strlit("resourceType");
            reveal_strlit("majorCategory");
            reveal_strlit("subCategory");
            reveal_strlit("tags");
            reveal_strlit("order");
            reveal_strlit("enabled");
            reveal_strlit("source");
            reveal_strlit("roles");
            reveal_strlit("createdAt");
            reveal_strlit("updatedAt");
            assert forall|i: int, j: int| 0 <= j < i < 16 implies fields@[j].0@ != fields@[i].0@ by {
                assert(fields@[j].0@.len() != fields@[i].0@.len() || fields@[j].0@[0] != fields@[i].0@[0]
                    || fields@[j].0@[1] != fields@[i].0@[1] || fields@[j].0@[2] != fields@[i].0@[2]);
            }
            assert forall|i: int| 0 <= i < 16 implies lookup(fields@, fields@[i].0@) == Some(fields@[i].1) by {
                lemma_lookup_at(fields@, i);
            }
        }
        let doc = JsonValue::Object(fields);
        proof {
            assert(decode_manifest(doc)->Some_0 == v);
        }
        doc
    }

    /// The display name of the author.
    pub fn author_name(&self) -> (r: String)
        ensures
            r@ == author_name_of(self.author),
    {
        match &self.author {
            JsonValue::Str(s) => s.clone(),
            JsonValue::Object(_) => match self.author.get("name") {
                Some(JsonValue::Str(s)) => s.clone(),
                _ => String::new(),
            },
            _ => String::new(),
        }
    }

    /// The summary of this manifest, found at `path`.
    pub fn to_summary(&self, path: String) -> (r: ResourceSummary)
        ensures
            r@ == summary_of(self@, path@),
    {
        ResourceSummary {
            id: self.id.clone(),
            name: self.name.clone(),
            description: self.description.clone(),
            icon: self.icon.clone(),
            major_category: self.major_category.clone(),
            sub_category: self.sub_category.clone(),
            tags: clone_strings(&self.tags),
            order: self.order,
            enabled: self.enabled,
            source: self.source.clone(),
            path,
        }
    }
}

} // verus!
