use vstd::prelude::*;
use crate::error::AethelError;
use crate::models::{Plugin, Registry, Schema, SchemaModel};
use crate::resolver::{
    all_resolve, lists_resolution, reports_first_failure, resolve_all_schemas, table_view,
};
use crate::text::{find_char, first_index_of, remove_all, remove_occurrences, text_eq};
use crate::value::{str_of, HeaderValue, ValueModel};
use crate::models::{field_views, opt_text, FieldModel, SchemaField};

verus! {

/// `<extension>/<schema>`.
pub open spec fn qualified_name(plugin_id: Seq<char>, schema_name: Seq<char>) -> Seq<char> {
    plugin_id + "/"@ + schema_name
}

/// The schemas of one extension under their fully namespaced names.
pub open spec fn plugin_entries(p: Plugin) -> Seq<(Seq<char>, SchemaModel)> {
    p.schemas@.map_values(|s: Schema| (qualified_name(p.id@, s.name@), s@))
}

/// Every schema of every extension, extension by extension.
pub open spec fn registry_table(ps: Seq<Plugin>) -> Seq<(Seq<char>, SchemaModel)>
    decreases ps.len(),
{
    if ps.len() == 0 {
        Seq::empty()
    } else {
        registry_table(ps.drop_last()) + plugin_entries(ps.last())
    }
}

/// Lists every schema of every extension under its fully namespaced name.
pub fn collect_schemas(plugins: &Vec<Plugin>) -> (r: Vec<(String, Schema)>)
    ensures
        table_view(r@) == registry_table(plugins@),
{
    let mut out: Vec<(String, Schema)> = Vec::new();
    let mut i: usize = 0;
    assert(plugins@.subrange(0, 0).len() == 0);
    while i < plugins.len()
        invariant
            i <= plugins@.len(),
            table_view(out@) == registry_table(plugins@.subrange(0, i as int)),
        decreases plugins@.len() - i,
    {
        let p = &plugins[i];
        let ghost before = table_view(out@);
        let mut j: usize = 0;
        while j < p.schemas.len()
            invariant
                j <= p.schemas@.len(),
                table_view(out@) == before + plugin_entries(*p).subrange(0, j as int),
            decreases p.schemas@.len() - j,
        {
            let s = &p.schemas[j];
            let name = p.id.clone().concat("/").concat(s.name.as_str());
            let copy = s.duplicate();
            assert(name@ == qualified_name(p.id@, s.name@));
            assert(plugin_entries(*p)[j as int] == (name@, copy@));
            let ghost prev = out@;
            let ghost elem = (name@, copy@);
            out.push((name, copy));
            assert(table_view(out@) =~= table_view(prev).push(elem));
            assert(plugin_entries(*p).subrange(0, j + 1) =~= plugin_entries(*p).subrange(0, j as int).push(elem));
            assert(table_view(out@) =~= before + plugin_entries(*p).subrange(0, j + 1));
            j = j + 1;
        }
        assert(plugin_entries(*p).subrange(0, j as int) =~= plugin_entries(*p));
        assert(plugins@.subrange(0, i + 1).drop_last() =~= plugins@.subrange(0, i as int));
        i = i + 1;
    }
    assert(plugins@.subrange(0, plugins@.len() as int) =~= plugins@);
    out
}

/// Builds the registry from the discovered extensions: every schema of every
/// extension is resolved; the first failure aborts the build.
pub fn build_registry(plugins: Vec<Plugin>) -> (r: Result<Registry, AethelError>)
    ensures
        r is Ok <==> all_resolve(registry_table(plugins@)),
        r matches Ok(reg) ==> reg.plugins@ == plugins@ && lists_resolution(
            registry_table(plugins@),
            reg.resolved_schemas@,
        ),
        r matches Err(e) ==> reports_first_failure(registry_table(plugins@), e),
{
    let all = collect_schemas(&plugins);
    match resolve_all_schemas(&all) {
        Ok(resolved) => Ok(Registry { plugins, resolved_schemas: resolved }),
        Err(e) => Err(e),
    }
}


/// The text under `key` in a mapping, or `default` when it is absent or not
/// a string.
pub open spec fn str_or(v: ValueModel, key: Seq<char>, default: Seq<char>) -> Seq<char> {
    match str_of(v.lookup(key)) {
        Some(t) => t,
        None => default,
    }
}

/// The text under `key` in a mapping value, if it is a string.
pub fn get_str(v: &HeaderValue, key: &str) -> (r: Option<String>)
    ensures
        opt_text(r) == str_of(v@.lookup(key@)),
{
    match v.get(key) {
        Some(HeaderValue::Str(t)) => Some(t.clone()),
        _ => None,
    }
}

/// The field a schema definition declares with one entry of its `fields`
/// list: a mapping with string `name` and `type`, an optional boolean
/// `required` (false when absent), an optional string `description` and an
/// optional `default` of any kind.
pub open spec fn field_of(v: ValueModel) -> Option<FieldModel> {
    match (str_of(v.lookup("name"@)), str_of(v.lookup("type"@))) {
        (Some(name), Some(kind)) => if v is Mapping {
            Some(
                FieldModel {
                    name,
                    field_type: kind,
                    required: match v.lookup("required"@) {
                        Some(ValueModel::Bool(b)) => b,
                        _ => false,
                    },
                    description: str_of(v.lookup("description"@)),
                    default: v.lookup("default"@),
                },
            )
        } else {
            None
        },
        _ => None,
    }
}

/// The well-formed field declarations of a list, in order; others are
/// skipped.
pub open spec fn fields_of(items: Seq<ValueModel>) -> Seq<FieldModel>
    decreases items.len(),
{
    if items.len() == 0 {
        Seq::empty()
    } else {
        let prev = fields_of(items.drop_last());
        match field_of(items.last()) {
            Some(f) => prev.push(f),
            None => prev,
        }
    }
}

/// The field list of a schema definition header: its `fields` sequence,
/// or none.
pub open spec fn header_fields(header: ValueModel) -> Seq<FieldModel> {
    match header.lookup("fields"@) {
        Some(ValueModel::Sequence(items)) => fields_of(items),
        _ => Seq::empty(),
    }
}

/// The schema that a definition file with the stem `stem` and the header
/// `header` declares.
pub open spec fn schema_of(stem: Seq<char>, header: ValueModel) -> SchemaModel {
    SchemaModel {
        name: remove_all(stem, ".aethel"@),
        extends: str_of(header.lookup("extends"@)),
        description: str_of(header.lookup("description"@)),
        fields: header_fields(header),
    }
}

/// Reads one entry of a schema's `fields` list.
pub fn field_from_value(v: &HeaderValue) -> (r: Option<SchemaField>)
    ensures
        match r {
            Some(f) => field_of(v@) == Some(f@),
            None => field_of(v@) is None,
        },
{
    let name = match get_str(v, "name") {
        Some(n) => n,
        None => {
            return None;
        },
    };
    let kind = match get_str(v, "type") {
        Some(k) => k,
        None => {
            return None;
        },
    };
    match v {
        HeaderValue::Mapping(_) => {},
        _ => {
            return None;
        },
    }
    let required = match v.get("required") {
        Some(HeaderValue::Bool(b)) => *b,
        _ => false,
    };
    let default = match v.get("default") {
        Some(d) => Some(d.duplicate()),
        None => None,
    };
    Some(
        SchemaField {
            name,
            field_type: kind,
            required,
            description: get_str(v, "description"),
            default,
        },
    )
}

/// Reads a schema definition from its file stem and decoded header.
pub fn schema_from_header(stem: &str, header: &HeaderValue) -> (r: Schema)
    ensures
        r@ == schema_of(stem@, header@),
{
    let mut fields: Vec<SchemaField> = Vec::new();
    let found = header.get("fields");
    if let Some(HeaderValue::Sequence(items)) = found {
        let ghost all = Seq::new(items@.len(), |k: int| items@[k]@);
        let mut i: usize = 0;
        while i < items.len()
            invariant
                i <= items@.len(),
                all == Seq::new(items@.len(), |k: int| items@[k]@),
                field_views(fields@) == fields_of(all.subrange(0, i as int)),
            decreases items@.len() - i,
        {
            assert(all.subrange(0, i + 1).drop_last() =~= all.subrange(0, i as int));
            match field_from_value(&items[i]) {
                Some(f) => {
                    let ghost prev = fields@;
                    fields.push(f);
                    assert(field_views(fields@) =~= field_views(prev).push(f@));
                },
                None => {},
            }
            i = i + 1;
        }
        proof {
            assert(all.subrange(0, items@.len() as int) =~= all);
            if let ValueModel::Sequence(m) = HeaderValue::Sequence(*items)@ {
                assert(m =~= all);
            }
        }
        assert(field_views(fields@) == header_fields(header@));
    } else {
        assert(field_views(fields@) =~= Seq::<FieldModel>::empty());
        assert(header_fields(header@) == Seq::<FieldModel>::empty()) by {
            match found {
                Some(v) => {
                    assert(!(v@ is Sequence));
                },
                None => {},
            }
        }
    }
    proof {
        reveal_strlit(".aethel");
    }
    Schema {
        name: remove_occurrences(stem, ".aethel"),
        extends: get_str(header, "extends"),
        description: get_str(header, "description"),
        fields,
    }
}

/// The extension that a directory named `id` with the definition header
/// `header` declares, before its schemas are added: `name` defaults to the
/// directory name, `description` to the empty text, `version` to `1.0`.
pub open spec fn plugin_header_ok(p: Plugin, id: Seq<char>, header: ValueModel) -> bool {
    &&& p.id@ == id
    &&& p.name@ == str_or(header, "name"@, id)
    &&& p.description@ == str_or(header, "description"@, ""@)
    &&& p.version@ == str_or(header, "version"@, "1.0"@)
    &&& opt_text(p.author) == str_of(header.lookup("author"@))
}

fn str_or_default(v: &HeaderValue, key: &str, default: &str) -> (r: String)
    ensures
        r@ == str_or(v@, key@, default@),
{
    match get_str(v, key) {
        Some(t) => t,
        None => String::from_str(default),
    }
}

impl Plugin {
    /// Reads an extension from its directory name and decoded definition
    /// header; it starts with no schemas.
    pub fn from_header(id: &str, header: &HeaderValue) -> (r: Plugin)
        ensures
            plugin_header_ok(r, id@, header@),
            r.schemas@.len() == 0,
    {
        Plugin {
            id: String::from_str(id),
            name: str_or_default(header, "name", id),
            description: str_or_default(header, "description", ""),
            version: str_or_default(header, "version", "1.0"),
            author: get_str(header, "author"),
            schemas: Vec::new(),
        }
    }

    /// Adds a schema under its name, replacing a schema of the same name.
    pub fn add_schema(&mut self, s: Schema)
        ensures
            final(self).id == old(self).id,
            final(self).name == old(self).name,
            final(self).description == old(self).description,
            final(self).version == old(self).version,
            final(self).author == old(self).author,
            ({
                let olds = old(self).schemas@;
                let news = final(self).schemas@;
                if exists|k: int| 0 <= k < olds.len() && #[trigger] olds[k].name@ == s.name@ {
                    news.len() == olds.len() && exists|k: int|
                        0 <= k < olds.len() && #[trigger] olds[k].name@ == s.name@ && news
                            == olds.update(k, s)
                } else {
                    news == olds.push(s)
                }
            }),
    {
        let mut i: usize = 0;
        while i < self.schemas.len()
            invariant
                i <= self.schemas@.len(),
                self.schemas@ == old(self).schemas@,
                self.id == old(self).id,
                self.name == old(self).name,
                self.description == old(self).description,
                self.version == old(self).version,
                self.author == old(self).author,
                forall|k: int| 0 <= k < i ==> self.schemas@[k].name@ != s.name@,
            decreases self.schemas@.len() - i,
        {
            if text_eq(self.schemas[i].name.as_str(), s.name.as_str()) {
                let ghost k = i as int;
                self.schemas.set(i, s);
                assert(old(self).schemas@[k].name@ == s.name@);
                return ;
            }
            i = i + 1;
        }
        self.schemas.push(s);
    }
}

/// Largest of the modification times, or zero (the epoch) when there are none.
pub open spec fn max_of(ts: Seq<u128>) -> u128
    decreases ts.len(),
{
    if ts.len() == 0 {
        0
    } else {
        let m = max_of(ts.drop_last());
        if ts.last() > m {
            ts.last()
        } else {
            m
        }
    }
}

proof fn lemma_max_of(ts: Seq<u128>)
    ensures
        forall|i: int| 0 <= i < ts.len() ==> ts[i] <= max_of(ts),
        ts.len() > 0 ==> exists|i: int| 0 <= i < ts.len() && ts[i] == max_of(ts),
    decreases ts.len(),
{
    if ts.len() > 0 {
        lemma_max_of(ts.drop_last());
        assert forall|i: int| 0 <= i < ts.len() implies ts[i] <= max_of(ts) by {
            if i < ts.len() - 1 {
                assert(ts.drop_last()[i] == ts[i]);
            }
        }
        if ts.len() > 1 && ts.last() <= max_of(ts.drop_last()) {
            let i = choose|i: int| 0 <= i < ts.drop_last().len() && ts.drop_last()[i] == max_of(ts.drop_last());
            assert(ts[i] == max_of(ts));
        }
        if ts.last() > max_of(ts.drop_last()) || ts.len() == 1 {
            assert(ts[ts.len() - 1] == max_of(ts));
        }
    }
}

/// The newest modification time found under the extensions root.
pub fn latest_mtime(mtimes: &Vec<u128>) -> (r: u128)
    ensures
        r == max_of(mtimes@),
{
    let mut latest: u128 = 0;
    let mut i: usize = 0;
    while i < mtimes.len()
        invariant
            i <= mtimes@.len(),
            latest == max_of(mtimes@.subrange(0, i as int)),
        decreases mtimes@.len() - i,
    {
        assert(mtimes@.subrange(0, i + 1).drop_last() =~= mtimes@.subrange(0, i as int));
        if mtimes[i] > latest {
            latest = mtimes[i];
        }
        i = i + 1;
    }
    assert(mtimes@.subrange(0, i as int) =~= mtimes@);
    latest
}

/// The cached registry may be served as it is: a cache file and the
/// extensions root both exist, and the cache is strictly newer than
/// everything under that root.
pub open spec fn cache_fresh(cache_mtime: Option<u128>, tree_mtimes: Option<Seq<u128>>) -> bool {
    match (cache_mtime, tree_mtimes) {
        (Some(c), Some(ts)) => c > max_of(ts),
        _ => false,
    }
}

/// Decides whether the cached registry may be served without a rebuild.
/// `cache_mtime` is the cache file's modification time, if it exists;
/// `tree_mtimes` are the modification times found under the extensions
/// root, if that root exists.
pub fn cache_is_fresh(cache_mtime: Option<u128>, tree_mtimes: &Option<Vec<u128>>) -> (r: bool)
    ensures
        r == cache_fresh(cache_mtime, match tree_mtimes {
            Some(v) => Some(v@),
            None => None,
        }),
{
    match (cache_mtime, tree_mtimes) {
        (Some(c), Some(ts)) => c > latest_mtime(ts),
        _ => false,
    }
}

/// Cache coherence: the cache is served exactly when it is newer than every
/// file under the extensions root, so after touching any file there (its
/// time becomes at least the cache's) the cache is not served, while an
/// untouched tree keeps it served.
pub proof fn lemma_cache_coherence(cache_mtime: u128, ts: Seq<u128>, k: int, touched: u128)
    requires
        0 <= k < ts.len(),
        touched >= cache_mtime,
    ensures
        cache_fresh(Some(cache_mtime), Some(ts)) <==> forall|i: int|
            0 <= i < ts.len() ==> ts[i] < cache_mtime,
        !cache_fresh(Some(cache_mtime), Some(ts.update(k, touched))),
{
    lemma_max_of(ts);
    lemma_max_of(ts.update(k, touched));
    assert(ts.update(k, touched)[k] == touched);
}

/// The extension and schema named by a type tag: the text before and after
/// its first `/`, or the built-in `core_note` extension and the whole tag
/// when it has no `/`.
pub open spec fn type_parts(t: Seq<char>) -> (Seq<char>, Seq<char>) {
    match first_index_of(t, '/') {
        Some(i) => (t.subrange(0, i), t.subrange(i + 1, t.len() as int)),
        None => ("core_note"@, t),
    }
}

/// Splits a type tag into its extension and schema names.
pub fn split_type(t: &str) -> (r: (String, String))
    ensures
        (r.0@, r.1@) == type_parts(t@),
{
    match find_char(t, '/') {
        Some(i) => {
            let n = t.unicode_len();
            let a = t.substring_char(0, i);
            let b = t.substring_char(i + 1, n);
            (String::from_str(a), String::from_str(b))
        },
        None => (String::from_str("core_note"), String::from_str(t)),
    }
}

impl Registry {
    /// Whether an extension with this namespace was discovered.
    pub fn has_plugin(&self, id: &str) -> (r: bool)
        ensures
            r == exists|i: int| 0 <= i < self.plugins@.len() && #[trigger] self.plugins@[i].id@ == id@,
    {
        let mut i: usize = 0;
        while i < self.plugins.len()
            invariant
                i <= self.plugins@.len(),
                forall|k: int| 0 <= k < i ==> self.plugins@[k].id@ != id@,
            decreases self.plugins@.len() - i,
        {
            if text_eq(self.plugins[i].id.as_str(), id) {
                return true;
            }
            i = i + 1;
        }
        false
    }

    /// The resolved field list of a fully namespaced schema name.
    pub fn resolved_fields(&self, name: &str) -> (r: Option<&Vec<SchemaField>>)
        ensures
            match r {
                Some(v) => exists|i: int|
                    0 <= i < self.resolved_schemas@.len() && #[trigger] self.resolved_schemas@[i].0@
                        == name@ && self.resolved_schemas@[i].1 == *v,
                None => forall|i: int|
                    0 <= i < self.resolved_schemas@.len() ==> #[trigger] self.resolved_schemas@[i].0@
                        != name@,
            },
    {
        let mut i: usize = 0;
        while i < self.resolved_schemas.len()
            invariant
                i <= self.resolved_schemas@.len(),
                forall|k: int| 0 <= k < i ==> #[trigger] self.resolved_schemas@[k].0@ != name@,
            decreases self.resolved_schemas@.len() - i,
        {
            if text_eq(self.resolved_schemas[i].0.as_str(), name) {
                return Some(&self.resolved_schemas[i].1);
            }
            i = i + 1;
        }
        None
    }
}

} // verus!

verus! {

/// The extension of the type `t` was discovered.
pub open spec fn type_known(registry: &Registry, t: Seq<char>) -> bool {
    exists|i: int|
        0 <= i < registry.plugins@.len() && #[trigger] registry.plugins@[i].id@ == type_parts(t).0
}

/// What preparing a new document of type `t` at `now` gives.
pub open spec fn new_artifact_outcome(
    registry: &Registry,
    t: Seq<char>,
    content: Seq<char>,
    title: Option<String>,
    fields: Seq<(String, String)>,
    uuid: String,
    now: crate::clock::Timestamp,
    r: Result<(crate::codec::Artifact, String), AethelError>,
) -> bool {
    let ext = type_parts(t).0;
    let dir = crate::store::artifact_dir_of(ext, now);
    let name = crate::clock::formatted_time(now.secs, now.nanos, "%Y-%m-%d-%H-%M-%S"@);
    let stamp = crate::clock::formatted_time(now.secs, now.nanos, "%+"@);
    if !type_known(registry, t) {
        r matches Err(e) && (e matches AethelError::PluginNotFound(n) && n@ == ext)
    } else if dir is None || name is None || stamp is None {
        r matches Err(e) && e is ValidationError
    } else {
        &&& r matches Ok((a, p))
        &&& p@ == crate::store::joined(dir->Some_0, name->Some_0 + ".md"@)
        &&& a.frontmatter.created_at@ == stamp->Some_0
        &&& a.frontmatter.updated_at@ == stamp->Some_0
        &&& a.frontmatter.uuid == uuid
        &&& a.frontmatter.artifact_type@ == t
        &&& a.frontmatter.tags@.len() == 0
        &&& a.frontmatter.schema_version@ == "1.0"@
        &&& a.content@ == content
        &&& crate::store::extra_view(a.frontmatter.extra@) == crate::store::new_extra(title, fields)
    }
}

/// Prepares a new document of the given type and its path relative to the
/// vault: the type is required, its extension must have been discovered,
/// and the creation time `now` must lie within the calendar's range.
pub fn create_new_artifact(
    registry: &Registry,
    artifact_type: Option<&str>,
    content: &str,
    title: Option<String>,
    fields: &Vec<(String, String)>,
    uuid: String,
    now: &crate::clock::Timestamp,
) -> (r: Result<(crate::codec::Artifact, String), AethelError>)
    ensures
        artifact_type is None ==> (r matches Err(e) && e is ValidationError),
        artifact_type matches Some(t) ==> new_artifact_outcome(registry, t@, content@, title, fields@, uuid, *now, r),
{
    let t = match artifact_type {
        Some(t) => t,
        None => {
            return Err(
                AethelError::ValidationError(
                    String::from_str("Type is required when creating new artifacts"),
                ),
            );
        },
    };
    let (plugin_id, _schema_name) = split_type(t);
    if !registry.has_plugin(plugin_id.as_str()) {
        return Err(AethelError::PluginNotFound(plugin_id));
    }
    let path = match crate::store::new_artifact_path(plugin_id.as_str(), now) {
        Some(p) => p,
        None => {
            return Err(AethelError::ValidationError(String::from_str("timestamp out of range")));
        },
    };
    let stamp = match crate::clock::format_timestamp(now, "%+") {
        Some(s) => s,
        None => {
            return Err(AethelError::ValidationError(String::from_str("timestamp out of range")));
        },
    };
    let a = crate::store::new_artifact(t, uuid, stamp, title, fields, String::from_str(content));
    Ok((a, path))
}

} // verus!
