use vstd::prelude::*;
use crate::value::{HeaderValue, ValueModel};

verus! {

/// One declared field of a schema.
pub struct SchemaField {
    pub name: String,
    pub field_type: String,
    pub required: bool,
    pub description: Option<String>,
    pub default: Option<HeaderValue>,
}

pub struct FieldModel {
    pub name: Seq<char>,
    pub field_type: Seq<char>,
    pub required: bool,
    pub description: Option<Seq<char>>,
    pub default: Option<ValueModel>,
}

pub open spec fn opt_text(s: Option<String>) -> Option<Seq<char>> {
    match s {
        Some(t) => Some(t@),
        None => None,
    }
}

pub open spec fn opt_value(v: Option<HeaderValue>) -> Option<ValueModel> {
    match v {
        Some(x) => Some(x@),
        None => None,
    }
}

impl View for SchemaField {
    type V = FieldModel;

    open spec fn view(&self) -> FieldModel {
        FieldModel {
            name: self.name@,
            field_type: self.field_type@,
            required: self.required,
            description: opt_text(self.description),
            default: opt_value(self.default),
        }
    }
}

pub open spec fn field_views(fs: Seq<SchemaField>) -> Seq<FieldModel> {
    fs.map_values(|f: SchemaField| f@)
}

pub fn copy_opt_text(s: &Option<String>) -> (r: Option<String>)
    ensures
        opt_text(r) == opt_text(*s),
{
    match s {
        Some(t) => Some(t.clone()),
        None => None,
    }
}

impl SchemaField {
    /// A copy of this field with the same content.
    pub fn duplicate(&self) -> (r: SchemaField)
        ensures
            r@ == self@,
    {
        SchemaField {
            name: self.name.clone(),
            field_type: self.field_type.clone(),
            required: self.required,
            description: copy_opt_text(&self.description),
            default: match &self.default {
                Some(v) => Some(v.duplicate()),
                None => None,
            },
        }
    }
}

/// Copies a field list, keeping each field's content.
pub fn copy_fields(fs: &Vec<SchemaField>) -> (r: Vec<SchemaField>)
    ensures
        field_views(r@) == field_views(fs@),
{
    let mut out: Vec<SchemaField> = Vec::new();
    let mut i: usize = 0;
    while i < fs.len()
        invariant
            i <= fs@.len(),
            out@.len() == i,
            forall|k: int| 0 <= k < i ==> out@[k]@ == fs@[k]@,
        decreases fs@.len() - i,
    {
        let f = fs[i].duplicate();
        out.push(f);
        i = i + 1;
    }
    assert(field_views(out@) =~= field_views(fs@));
    out
}

/// A named field contract, optionally extending another schema.
pub struct Schema {
    pub name: String,
    /// The fully namespaced name (`<extension>/<schema>`) of the parent.
    pub extends: Option<String>,
    pub description: Option<String>,
    pub fields: Vec<SchemaField>,
}

pub struct SchemaModel {
    pub name: Seq<char>,
    pub extends: Option<Seq<char>>,
    pub description: Option<Seq<char>>,
    pub fields: Seq<FieldModel>,
}

impl View for Schema {
    type V = SchemaModel;

    open spec fn view(&self) -> SchemaModel {
        SchemaModel {
            name: self.name@,
            extends: opt_text(self.extends),
            description: opt_text(self.description),
            fields: field_views(self.fields@),
        }
    }
}

impl Schema {
    /// A copy of this schema with the same content.
    pub fn duplicate(&self) -> (r: Schema)
        ensures
            r@ == self@,
    {
        Schema {
            name: self.name.clone(),
            extends: copy_opt_text(&self.extends),
            description: copy_opt_text(&self.description),
            fields: copy_fields(&self.fields),
        }
    }
}

/// An extension: a namespace bundling schema definitions.
pub struct Plugin {
    /// The namespace, taken from the extension's directory name.
    pub id: String,
    pub name: String,
    pub description: String,
    pub version: String,
    pub author: Option<String>,
    /// The extension's schemas; their names are distinct.
    pub schemas: Vec<Schema>,
}

/// All discovered extensions and the resolved field list of every schema.
pub struct Registry {
    pub plugins: Vec<Plugin>,
    /// Fully namespaced schema name with its flattened field list.
    pub resolved_schemas: Vec<(String, Vec<SchemaField>)>,
}

/// Where the vault lives.
pub struct Config {
    pub vault_path: String,
}

/// What a vault records about itself.
pub struct VaultMetadata {
    pub version: String,
    /// RFC 3339 creation time.
    pub created_at: String,
}

} // verus!
