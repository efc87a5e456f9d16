use vstd::prelude::*;
use crate::error::AethelError;
use crate::models::{copy_fields, field_views, FieldModel, Schema, SchemaField, SchemaModel};
use crate::text::text_eq;
use crate::value::{HeaderValue, ValueModel};

verus! {

/// Index of the first field named `name` at or after `from`, or the length
/// of `fields` when there is none.
pub open spec fn first_named(fields: Seq<FieldModel>, name: Seq<char>, from: int) -> int
    decreases fields.len() - from,
{
    if from < 0 || from >= fields.len() {
        fields.len() as int
    } else if fields[from].name == name {
        from
    } else {
        first_named(fields, name, from + 1)
    }
}

/// Overlays one field: it replaces the first field of the same name in
/// place, or is appended when no field has its name.
pub open spec fn overlay_one(fields: Seq<FieldModel>, f: FieldModel) -> Seq<FieldModel> {
    let p = first_named(fields, f.name, 0);
    if p < fields.len() {
        fields.update(p, f)
    } else {
        fields.push(f)
    }
}

/// Overlays the child's own fields, in order, onto inherited fields.
pub open spec fn overlay(fields: Seq<FieldModel>, own: Seq<FieldModel>) -> Seq<FieldModel>
    decreases own.len(),
{
    if own.len() == 0 {
        fields
    } else {
        overlay_one(overlay(fields, own.drop_last()), own.last())
    }
}

pub open spec fn base_field(
    name: Seq<char>,
    kind: Seq<char>,
    required: bool,
    description: Seq<char>,
    default: Option<ValueModel>,
) -> FieldModel {
    FieldModel { name, field_type: kind, required, description: Some(description), default }
}

/// The six built-in fields every inheritance chain starts from.
pub open spec fn base_fields_model() -> Seq<FieldModel> {
    seq![
        base_field("uuid"@, "string"@, true, "Unique identifier for the artifact"@, None),
        base_field("type"@, "string"@, true, "Type of the artifact"@, None),
        base_field("createdAt"@, "datetime"@, true, "Creation timestamp"@, None),
        base_field("updatedAt"@, "datetime"@, true, "Last update timestamp"@, None),
        base_field(
            "tags"@,
            "array"@,
            false,
            "Tags for the artifact"@,
            Some(ValueModel::Sequence(Seq::empty())),
        ),
        base_field("schemaVersion"@, "string"@, true, "Schema version"@, None),
    ]
}

/// Why a schema could not be resolved.
pub enum ResolveFailure {
    /// The chain re-entered this schema.
    Circular(Seq<char>),
    /// No extension defines this schema.
    Missing(Seq<char>),
}

/// The schema stored under a fully namespaced name, first match wins.
pub open spec fn find_schema(table: Seq<(Seq<char>, SchemaModel)>, id: Seq<char>) -> Option<
    SchemaModel,
>
    decreases table.len(),
{
    if table.len() == 0 {
        None
    } else if table[0].0 == id {
        Some(table[0].1)
    } else {
        find_schema(table.drop_first(), id)
    }
}

/// The resolved field list of `id`, while the schemas in `active` are being
/// resolved further up the chain.
pub open spec fn resolve_in(
    table: Seq<(Seq<char>, SchemaModel)>,
    id: Seq<char>,
    active: Seq<Seq<char>>,
) -> Result<Seq<FieldModel>, ResolveFailure>
    decreases table.len() - active.len(),
{
    if active.contains(id) {
        Err(ResolveFailure::Circular(id))
    } else {
        match find_schema(table, id) {
            None => Err(ResolveFailure::Missing(id)),
            Some(s) => {
                if active.len() >= table.len() {
                    // never decides a result: see lemma_chain_shorter_than_table
                    Err(ResolveFailure::Circular(id))
                } else {
                    match s.extends {
                        None => Ok(overlay(base_fields_model(), s.fields)),
                        Some(parent) => match resolve_in(table, parent, active.push(id)) {
                            Ok(inherited) => Ok(overlay(inherited, s.fields)),
                            Err(e) => Err(e),
                        },
                    }
                }
            },
        }
    }
}

/// The resolved field list of `id`.
pub open spec fn resolve(table: Seq<(Seq<char>, SchemaModel)>, id: Seq<char>) -> Result<
    Seq<FieldModel>,
    ResolveFailure,
> {
    resolve_in(table, id, Seq::empty())
}

pub open spec fn table_view(all: Seq<(String, Schema)>) -> Seq<(Seq<char>, SchemaModel)> {
    all.map_values(|e: (String, Schema)| (e.0@, e.1@))
}

pub open spec fn texts_view(v: Seq<String>) -> Seq<Seq<char>> {
    v.map_values(|s: String| s@)
}

/// The library error that reports a resolution failure.
pub open spec fn reports(e: AethelError, f: ResolveFailure) -> bool {
    match f {
        ResolveFailure::Circular(n) => e matches AethelError::CircularSchemaDependency(m) && m@ == n,
        ResolveFailure::Missing(n) => e matches AethelError::SchemaNotFound(m) && m@ == n,
    }
}

fn text_field(
    name: &str,
    kind: &str,
    required: bool,
    description: &str,
    default: Option<HeaderValue>,
) -> (r: SchemaField)
    ensures
        r@ == base_field(name@, kind@, required, description@, crate::models::opt_value(default)),
{
    SchemaField {
        name: String::from_str(name),
        field_type: String::from_str(kind),
        required,
        description: Some(String::from_str(description)),
        default,
    }
}

/// The six built-in fields.
pub fn base_fields() -> (r: Vec<SchemaField>)
    ensures
        field_views(r@) == base_fields_model(),
{
    let mut r: Vec<SchemaField> = Vec::new();
    r.push(text_field("uuid", "string", true, "Unique identifier for the artifact", None));
    r.push(text_field("type", "string", true, "Type of the artifact", None));
    r.push(text_field("createdAt", "datetime", true, "Creation timestamp", None));
    r.push(text_field("updatedAt", "datetime", true, "Last update timestamp", None));
    let empty = HeaderValue::Sequence(Vec::new());
    assert(empty@ == ValueModel::Sequence(Seq::empty())) by {
        if let ValueModel::Sequence(a) = empty@ {
            assert(a =~= Seq::<ValueModel>::empty());
        }
    }
    r.push(text_field("tags", "array", false, "Tags for the artifact", Some(empty)));
    r.push(text_field("schemaVersion", "string", true, "Schema version", None));
    assert(field_views(r@) =~= base_fields_model());
    r
}

/// Overlays one field onto `fields` by name.
pub fn overlay_field(fields: &mut Vec<SchemaField>, f: &SchemaField)
    ensures
        field_views(final(fields)@) == overlay_one(field_views(old(fields)@), f@),
{
    let ghost views = field_views(fields@);
    let mut j: usize = 0;
    while j < fields.len()
        invariant
            j <= fields@.len(),
            views == field_views(fields@),
            views == field_views(old(fields)@),
            first_named(views, f@.name, 0) == first_named(views, f@.name, j as int),
        decreases fields@.len() - j,
    {
        if text_eq(fields[j].name.as_str(), f.name.as_str()) {
            assert(first_named(views, f@.name, j as int) == j as int);
            let copy = f.duplicate();
            fields.set(j, copy);
            assert(field_views(fields@) =~= views.update(j as int, f@));
            return ;
        }
        j = j + 1;
    }
    let copy = f.duplicate();
    fields.push(copy);
    assert(field_views(fields@) =~= views.push(f@));
}

/// Overlays the child's own fields, in order.
pub fn overlay_fields(fields: &mut Vec<SchemaField>, own: &Vec<SchemaField>)
    ensures
        field_views(final(fields)@) == overlay(field_views(old(fields)@), field_views(own@)),
{
    let ghost start = field_views(fields@);
    let mut i: usize = 0;
    while i < own.len()
        invariant
            i <= own@.len(),
            field_views(fields@) == overlay(start, field_views(own@.subrange(0, i as int))),
        decreases own@.len() - i,
    {
        proof {
            let next = field_views(own@.subrange(0, i + 1));
            assert(next.drop_last() =~= field_views(own@.subrange(0, i as int)));
            assert(next.last() == own@[i as int]@);
        }
        overlay_field(fields, &own[i]);
        i = i + 1;
    }
    assert(own@.subrange(0, own@.len() as int) =~= own@);
}

/// Position of the schema named `id` in `all`, first match wins.
pub fn find_schema_index(all: &Vec<(String, Schema)>, id: &str) -> (r: Option<usize>)
    ensures
        match r {
            Some(i) => i < all@.len() && find_schema(table_view(all@), id@) == Some(all@[i as int].1@),
            None => find_schema(table_view(all@), id@) is None,
        },
{
    let ghost t = table_view(all@);
    let mut i: usize = 0;
    assert(t.skip(0) =~= t);
    while i < all.len()
        invariant
            i <= all@.len(),
            t == table_view(all@),
            find_schema(t, id@) == find_schema(t.skip(i as int), id@),
        decreases all@.len() - i,
    {
        assert(t.skip(i as int).drop_first() =~= t.skip(i + 1));
        assert(t.skip(i as int)[0] == t[i as int]);
        if text_eq(all[i].0.as_str(), id) {
            return Some(i);
        }
        i = i + 1;
    }
    None
}

fn contains_text(v: &Vec<String>, s: &str) -> (r: bool)
    ensures
        r == texts_view(v@).contains(s@),
{
    let mut i: usize = 0;
    while i < v.len()
        invariant
            i <= v@.len(),
            forall|k: int| 0 <= k < i ==> v@[k]@ != s@,
        decreases v@.len() - i,
    {
        if text_eq(v[i].as_str(), s) {
            assert(texts_view(v@)[i as int] == s@);
            return true;
        }
        i = i + 1;
    }
    assert(!texts_view(v@).contains(s@)) by {
        if texts_view(v@).contains(s@) {
            let k = choose|k: int| 0 <= k < texts_view(v@).len() && texts_view(v@)[k] == s@;
            assert(v@[k]@ == s@);
        }
    }
    false
}

/// Resolves `schema_id` while the names in `active` are being resolved
/// further up the chain.
pub fn resolve_schema_fields(
    schema_id: &str,
    all: &Vec<(String, Schema)>,
    active: &mut Vec<String>,
    base: &Vec<SchemaField>,
) -> (r: Result<Vec<SchemaField>, AethelError>)
    requires
        field_views(base@) == base_fields_model(),
    ensures
        final(active)@ == old(active)@,
        match (r, resolve_in(table_view(all@), schema_id@, texts_view(old(active)@))) {
            (Ok(v), Ok(m)) => field_views(v@) == m,
            (Err(e), Err(f)) => reports(e, f),
            _ => false,
        },
    decreases all@.len() - old(active)@.len(),
{
    let ghost t = table_view(all@);
    let ghost act = texts_view(active@);
    if contains_text(active, schema_id) {
        return Err(AethelError::CircularSchemaDependency(String::from_str(schema_id)));
    }
    let idx = match find_schema_index(all, schema_id) {
        Some(i) => i,
        None => {
            return Err(AethelError::SchemaNotFound(String::from_str(schema_id)));
        },
    };
    if active.len() >= all.len() {
        return Err(AethelError::CircularSchemaDependency(String::from_str(schema_id)));
    }
    let schema = &all[idx].1;
    let mut fields = match &schema.extends {
        None => copy_fields(base),
        Some(parent) => {
            active.push(String::from_str(schema_id));
            assert(texts_view(active@) =~= act.push(schema_id@));
            let inherited = resolve_schema_fields(parent.as_str(), all, active, base);
            active.pop();
            assert(active@ =~= old(active)@);
            match inherited {
                Ok(v) => v,
                Err(e) => {
                    return Err(e);
                },
            }
        },
    };
    overlay_fields(&mut fields, &schema.fields);
    Ok(fields)
}

/// Every schema of the table resolves.
pub open spec fn all_resolve(t: Seq<(Seq<char>, SchemaModel)>) -> bool {
    forall|i: int| 0 <= i < t.len() ==> #[trigger] resolve(t, t[i].0) is Ok
}

/// `out` lists each schema of the table, in order, with its resolved fields.
pub open spec fn lists_resolution(
    t: Seq<(Seq<char>, SchemaModel)>,
    out: Seq<(String, Vec<SchemaField>)>,
) -> bool {
    &&& out.len() == t.len()
    &&& forall|i: int|
        0 <= i < t.len() ==> (#[trigger] out[i]).0@ == t[i].0 && resolve(t, t[i].0) == Ok::<
            Seq<FieldModel>,
            ResolveFailure,
        >(field_views(out[i].1@))
}

/// `e` reports the failure of the first schema of the table that fails.
pub open spec fn reports_first_failure(t: Seq<(Seq<char>, SchemaModel)>, e: AethelError) -> bool {
    exists|i: int|
        {
            &&& 0 <= i < t.len()
            &&& forall|j: int| 0 <= j < i ==> #[trigger] resolve(t, t[j].0) is Ok
            &&& #[trigger] resolve(t, t[i].0) matches Err(f)
            &&& reports(e, f)
        }
}

/// Resolves every schema of `all`, in order, each from an empty chain.
pub fn resolve_all_schemas(all: &Vec<(String, Schema)>) -> (r: Result<
    Vec<(String, Vec<SchemaField>)>,
    AethelError,
>)
    ensures
        r is Ok <==> all_resolve(table_view(all@)),
        r matches Ok(out) ==> lists_resolution(table_view(all@), out@),
        r matches Err(e) ==> reports_first_failure(table_view(all@), e),
{
    let ghost t = table_view(all@);
    assert(forall|k: int| 0 <= k < all@.len() ==> #[trigger] t[k].0 == all@[k].0@);
    let base = base_fields();
    let mut out: Vec<(String, Vec<SchemaField>)> = Vec::new();
    let mut i: usize = 0;
    while i < all.len()
        invariant
            i <= all@.len(),
            field_views(base@) == base_fields_model(),
            out@.len() == i,
            t == table_view(all@),
            forall|k: int| 0 <= k < all@.len() ==> #[trigger] t[k].0 == all@[k].0@,
            forall|k: int|
                0 <= k < i ==> (#[trigger] out@[k]).0@ == t[k].0 && resolve(t, t[k].0) == Ok::<
                    Seq<FieldModel>,
                    ResolveFailure,
                >(field_views(out@[k].1@)),
        decreases all@.len() - i,
    {
        let mut active: Vec<String> = Vec::new();
        assert(texts_view(active@) =~= Seq::<Seq<char>>::empty());
        let id = all[i].0.as_str();
        match resolve_schema_fields(id, all, &mut active, &base) {
            Ok(fields) => {
                assert(t[i as int].0 == id@);
                out.push((all[i].0.clone(), fields));
            },
            Err(e) => {
                assert forall|j: int| 0 <= j < i implies #[trigger] resolve(t, t[j].0) is Ok by {
                    assert(out@[j].0@ == t[j].0);
                }
                assert(t[i as int].0 == id@);
                assert(resolve(t, t[i as int].0) is Err);
                assert(!all_resolve(t));
                assert(reports_first_failure(t, e));
                return Err(e);
            },
        }
        i = i + 1;
    }
    assert forall|k: int| 0 <= k < t.len() implies #[trigger] resolve(t, t[k].0) is Ok by {
        assert(out@[k].0@ == t[k].0);
    }
    Ok(out)
}

} // verus!

verus! {

proof fn lemma_first_named(fields: Seq<FieldModel>, name: Seq<char>, from: int)
    requires
        0 <= from <= fields.len(),
    ensures
        from <= first_named(fields, name, from) <= fields.len(),
        first_named(fields, name, from) < fields.len() ==> fields[first_named(fields, name, from)].name
            == name,
        forall|k: int| from <= k < first_named(fields, name, from) ==> fields[k].name != name,
    decreases fields.len() - from,
{
    if from < fields.len() && fields[from].name != name {
        lemma_first_named(fields, name, from + 1);
    }
}

/// Overlaying a child's fields keeps every inherited name at its position,
/// leaves an inherited field untouched unless the child redeclares its
/// name, and places after the inherited fields only names that no
/// inherited field has.
pub proof fn lemma_overlay_keeps_order(fields: Seq<FieldModel>, own: Seq<FieldModel>)
    ensures
        overlay(fields, own).len() >= fields.len(),
        forall|k: int|
            0 <= k < fields.len() ==> #[trigger] overlay(fields, own)[k].name == fields[k].name,
        forall|k: int|
            0 <= k < fields.len() && (forall|m: int|
                0 <= m < own.len() ==> own[m].name != fields[k].name) ==> #[trigger] overlay(
                fields,
                own,
            )[k] == fields[k],
        forall|k: int, j: int|
            fields.len() <= k < overlay(fields, own).len() && 0 <= j < fields.len() ==> #[trigger] overlay(
                fields,
                own,
            )[k].name != #[trigger] fields[j].name,
    decreases own.len(),
{
    if own.len() > 0 {
        let prev = overlay(fields, own.drop_last());
        let f = own.last();
        lemma_overlay_keeps_order(fields, own.drop_last());
        lemma_first_named(prev, f.name, 0);
        let p = first_named(prev, f.name, 0);
        let cur = overlay(fields, own);
        assert(cur == overlay_one(prev, f));
        assert forall|k: int|
            0 <= k < fields.len() && (forall|m: int|
                0 <= m < own.len() ==> own[m].name != fields[k].name) implies #[trigger] cur[k]
            == fields[k] by {
            assert(own[own.len() - 1] == f);
            assert forall|m: int| 0 <= m < own.drop_last().len() implies own.drop_last()[m].name
                != fields[k].name by {
                assert(own.drop_last()[m] == own[m]);
            }
        }
        assert forall|k: int, j: int|
            fields.len() <= k < cur.len() && 0 <= j < fields.len() implies #[trigger] cur[k].name
            != #[trigger] fields[j].name by {
            if p >= prev.len() && k == prev.len() {
                assert(prev[j].name == fields[j].name);
            }
        }
    }
}

/// Resolution correctness on a three-level chain: with `a` a root, `b`
/// extending `a` and `c` extending `b`, resolving `c` gives the resolved
/// fields of `b` with `c`'s own fields overlaid by name, and resolving `b`
/// gives those of `a` with `b`'s own fields overlaid.
pub proof fn lemma_resolve_chain(
    t: Seq<(Seq<char>, SchemaModel)>,
    a: Seq<char>,
    b: Seq<char>,
    c: Seq<char>,
)
    requires
        a != b,
        b != c,
        a != c,
        find_schema(t, a) matches Some(sa) && sa.extends is None,
        find_schema(t, b) matches Some(sb) && sb.extends == Some(a),
        find_schema(t, c) matches Some(sc) && sc.extends == Some(b),
    ensures
        resolve(t, a) == Ok::<Seq<FieldModel>, ResolveFailure>(
            overlay(base_fields_model(), find_schema(t, a)->Some_0.fields),
        ),
        resolve(t, b) == Ok::<Seq<FieldModel>, ResolveFailure>(
            overlay(resolve(t, a)->Ok_0, find_schema(t, b)->Some_0.fields),
        ),
        resolve(t, c) == Ok::<Seq<FieldModel>, ResolveFailure>(
            overlay(resolve(t, b)->Ok_0, find_schema(t, c)->Some_0.fields),
        ),
{
    lemma_find_in_table(t, a);
    lemma_find_in_table(t, b);
    lemma_find_in_table(t, c);
    lemma_three_distinct_keys(t, a, b, c);
    let e = Seq::<Seq<char>>::empty();
    assert(!e.contains(a));
    assert(!e.push(b).contains(a));
    assert(!e.push(c).contains(b));
    assert(!e.push(c).push(b).contains(a)) by {
        assert(e.push(c).push(b) =~= seq![c, b]);
    }
    assert(resolve_in(t, a, e.push(c).push(b)) == resolve_in(t, a, e));
    assert(resolve_in(t, a, e.push(b)) == resolve_in(t, a, e));
    assert(resolve_in(t, b, e.push(c)) == resolve_in(t, b, e));
}

proof fn lemma_find_in_table(t: Seq<(Seq<char>, SchemaModel)>, id: Seq<char>)
    requires
        find_schema(t, id) is Some,
    ensures
        exists|i: int| 0 <= i < t.len() && #[trigger] t[i].0 == id,
    decreases t.len(),
{
    if t[0].0 != id {
        lemma_find_in_table(t.drop_first(), id);
        let i = choose|i: int| 0 <= i < t.drop_first().len() && #[trigger] t.drop_first()[i].0 == id;
        assert(t[i + 1].0 == id);
    }
}

proof fn lemma_three_distinct_keys(
    t: Seq<(Seq<char>, SchemaModel)>,
    a: Seq<char>,
    b: Seq<char>,
    c: Seq<char>,
)
    requires
        a != b,
        b != c,
        a != c,
        exists|i: int| 0 <= i < t.len() && #[trigger] t[i].0 == a,
        exists|i: int| 0 <= i < t.len() && #[trigger] t[i].0 == b,
        exists|i: int| 0 <= i < t.len() && #[trigger] t[i].0 == c,
    ensures
        t.len() >= 3,
{
    let i = choose|i: int| 0 <= i < t.len() && #[trigger] t[i].0 == a;
    let j = choose|i: int| 0 <= i < t.len() && #[trigger] t[i].0 == b;
    let k = choose|i: int| 0 <= i < t.len() && #[trigger] t[i].0 == c;
    assert(i != j && j != k && i != k);
}

/// Cycle detection: when `x` extends `y`, `y` extends `x`, and every schema
/// of the table is one of the two, no build succeeds, and the error that
/// the build reports names `x` or `y` as a circular dependency.
pub proof fn lemma_cycle_reported(t: Seq<(Seq<char>, SchemaModel)>, x: Seq<char>, y: Seq<char>)
    requires
        x != y,
        find_schema(t, x) matches Some(sx) && sx.extends == Some(y),
        find_schema(t, y) matches Some(sy) && sy.extends == Some(x),
        forall|i: int| 0 <= i < t.len() ==> #[trigger] t[i].0 == x || t[i].0 == y,
    ensures
        resolve(t, x) == Err::<Seq<FieldModel>, ResolveFailure>(ResolveFailure::Circular(x)),
        resolve(t, y) == Err::<Seq<FieldModel>, ResolveFailure>(ResolveFailure::Circular(y)),
        !all_resolve(t),
        forall|e: AethelError|
            reports_first_failure(t, e) ==> (e matches AethelError::CircularSchemaDependency(n) && (
            n@ == x || n@ == y)),
{
    lemma_find_in_table(t, x);
    lemma_find_in_table(t, y);
    let i = choose|i: int| 0 <= i < t.len() && #[trigger] t[i].0 == x;
    let j = choose|i: int| 0 <= i < t.len() && #[trigger] t[i].0 == y;
    assert(i != j);
    assert(t.len() >= 2);
    let e = Seq::<Seq<char>>::empty();
    assert(e.push(x).push(y).contains(x)) by {
        assert(e.push(x).push(y)[0] == x);
    }
    assert(e.push(y).push(x).contains(y)) by {
        assert(e.push(y).push(x)[0] == y);
    }
    assert(!e.push(x).contains(y));
    assert(!e.push(y).contains(x));
    let cx = Err::<Seq<FieldModel>, ResolveFailure>(ResolveFailure::Circular(x));
    let cy = Err::<Seq<FieldModel>, ResolveFailure>(ResolveFailure::Circular(y));
    assert(resolve_in(t, x, e.push(x).push(y)) == cx);
    assert(resolve_in(t, y, e.push(x)) == cx);
    assert(resolve_in(t, x, e) == cx);
    assert(resolve_in(t, y, e.push(y).push(x)) == cy);
    assert(resolve_in(t, x, e.push(y)) == cy);
    assert(resolve_in(t, y, e) == cy);
    assert(resolve(t, t[i].0) is Err);
    assert forall|e: AethelError| reports_first_failure(t, e) implies (e matches AethelError::CircularSchemaDependency(n) && (
    n@ == x || n@ == y)) by {
        let k = choose|k: int|
            {
                &&& 0 <= k < t.len()
                &&& forall|j: int| 0 <= j < k ==> #[trigger] resolve(t, t[j].0) is Ok
                &&& #[trigger] resolve(t, t[k].0) matches Err(f)
                &&& reports(e, f)
            };
        assert(t[k].0 == x || t[k].0 == y);
    }
}

} // verus!

verus! {

/// The length guard of `resolve_in` never decides a result reached from an
/// empty chain: every chain it builds holds distinct names that the table
/// defines, so while resolving a name that the table defines and the chain
/// does not hold, the chain is shorter than the table.
pub proof fn lemma_chain_shorter_than_table(
    t: Seq<(Seq<char>, SchemaModel)>,
    active: Seq<Seq<char>>,
    id: Seq<char>,
)
    requires
        active.no_duplicates(),
        forall|k: int| 0 <= k < active.len() ==> #[trigger] find_schema(t, active[k]) is Some,
        !active.contains(id),
        find_schema(t, id) is Some,
    ensures
        active.len() < t.len(),
{
    let chain = active.push(id);
    let keys = t.map_values(|e: (Seq<char>, SchemaModel)| e.0);
    assert(chain.no_duplicates()) by {
        assert forall|a: int, b: int| 0 <= a < chain.len() && 0 <= b < chain.len() && a != b implies chain[a]
            != chain[b] by {
            if a < active.len() && b < active.len() {
                assert(active[a] != active[b]);
            } else if a == active.len() {
                assert(active.contains(chain[b]) || b == a);
            } else {
                assert(active.contains(chain[a]));
            }
        }
    }
    assert(chain.to_set().subset_of(keys.to_set())) by {
        assert forall|x: Seq<char>| chain.to_set().contains(x) implies keys.to_set().contains(x) by {
            let k = choose|k: int| 0 <= k < chain.len() && chain[k] == x;
            if k < active.len() {
                assert(find_schema(t, active[k]) is Some);
            }
            lemma_find_in_table(t, x);
            let i = choose|i: int| 0 <= i < t.len() && #[trigger] t[i].0 == x;
            assert(keys[i] == x);
        }
    }
    chain.unique_seq_to_set();
    keys.lemma_cardinality_of_set();
    vstd::set_lib::lemma_len_subset(chain.to_set(), keys.to_set());
}

} // verus!
