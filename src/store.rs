use vstd::prelude::*;
use crate::clock::{format_timestamp, formatted_time, parse_timestamp, timestamp_value, Timestamp};
use crate::codec::{parse_artifact, parsed, Artifact, ArtifactFrontmatter};
use crate::error::AethelError;
use crate::text::text_eq;
use crate::value::{HeaderValue, ValueModel};

verus! {

/// `base` joined with the relative part `rel` by a single `/`; an empty
/// base gives `rel` itself, and a base ending in `/` gets no second one.
pub open spec fn joined(base: Seq<char>, rel: Seq<char>) -> Seq<char> {
    if base.len() == 0 {
        rel
    } else if base.last() == '/' {
        base + rel
    } else {
        base + "/"@ + rel
    }
}

/// Joins a relative path part onto a base path.
pub fn join_path(base: &str, rel: &str) -> (r: String)
    ensures
        r@ == joined(base@, rel@),
{
    let n = base.unicode_len();
    if n == 0 {
        String::from_str(rel)
    } else if base.get_char(n - 1) == '/' {
        String::from_str(base).concat(rel)
    } else {
        String::from_str(base).concat("/").concat(rel)
    }
}

/// The subtree holding documents.
pub open spec fn artifacts_root() -> Seq<char> {
    "20_artifacts"@
}

/// The directory of source material for an extension, under the vault.
pub fn get_plugin_source_dir(vault_path: &str, plugin_id: &str) -> (r: String)
    ensures
        r@ == joined(joined(vault_path@, "10_sources"@), plugin_id@),
{
    let sources = join_path(vault_path, "10_sources");
    join_path(sources.as_str(), plugin_id)
}

/// The vault directory named by the configuration, which must be an
/// existing directory (`is_dir` says whether it is).
pub fn get_vault_path(config_vault_path: &str, is_dir: bool) -> (r: Result<String, AethelError>)
    ensures
        match r {
            Ok(p) => is_dir && p@ == config_vault_path@,
            Err(e) => !is_dir && (e matches AethelError::VaultNotFound(p) && p@
                == config_vault_path@),
        },
{
    if !is_dir {
        return Err(AethelError::VaultNotFound(String::from_str(config_vault_path)));
    }
    Ok(String::from_str(config_vault_path))
}

/// Checks that a vault path is an existing directory (`is_dir` says
/// whether it is).
pub fn ensure_vault_exists(path: &str, is_dir: bool) -> (r: Result<(), AethelError>)
    ensures
        match r {
            Ok(()) => is_dir,
            Err(e) => !is_dir && (e matches AethelError::VaultNotFound(p) && p@ == path@),
        },
{
    if !is_dir {
        return Err(AethelError::VaultNotFound(String::from_str(path)));
    }
    Ok(())
}

/// The canonical directory, relative to the vault, for new documents of
/// an extension created at `t`: `20_artifacts/<extension>/<year>/<month>`.
pub open spec fn artifact_dir_of(plugin_id: Seq<char>, t: Timestamp) -> Option<Seq<char>> {
    match (formatted_time(t.secs, t.nanos, "%Y"@), formatted_time(t.secs, t.nanos, "%m"@)) {
        (Some(y), Some(m)) => Some(joined(joined(joined(artifacts_root(), plugin_id), y), m)),
        _ => None,
    }
}

/// The directory, relative to the vault, for documents of an extension
/// created at `t`; none when `t` lies outside the calendar's range.
pub fn get_plugin_artifact_dir(plugin_id: &str, t: &Timestamp) -> (r: Option<String>)
    ensures
        match r {
            Some(d) => artifact_dir_of(plugin_id@, *t) == Some(d@),
            None => artifact_dir_of(plugin_id@, *t) is None,
        },
{
    let year = format_timestamp(t, "%Y")?;
    let month = format_timestamp(t, "%m")?;
    let a = join_path("20_artifacts", plugin_id);
    let b = join_path(a.as_str(), year.as_str());
    Some(join_path(b.as_str(), month.as_str()))
}

/// The file name stem for a document created at `t`:
/// `<year>-<month>-<day>-<hour>-<minute>-<second>`.
pub fn generate_filename(t: &Timestamp) -> (r: Option<String>)
    ensures
        match r {
            Some(s) => formatted_time(t.secs, t.nanos, "%Y-%m-%d-%H-%M-%S"@) == Some(s@),
            None => formatted_time(t.secs, t.nanos, "%Y-%m-%d-%H-%M-%S"@) is None,
        },
{
    format_timestamp(t, "%Y-%m-%d-%H-%M-%S")
}

/// The path, relative to the vault, of a new document of an extension
/// created at `t`.
pub fn new_artifact_path(plugin_id: &str, t: &Timestamp) -> (r: Option<String>)
    ensures
        match r {
            Some(p) => artifact_dir_of(plugin_id@, *t) matches Some(d) && formatted_time(
                t.secs,
                t.nanos,
                "%Y-%m-%d-%H-%M-%S"@,
            ) matches Some(f) && p@ == joined(d, f + ".md"@),
            None => artifact_dir_of(plugin_id@, *t) is None || formatted_time(
                t.secs,
                t.nanos,
                "%Y-%m-%d-%H-%M-%S"@,
            ) is None,
        },
{
    let dir = get_plugin_artifact_dir(plugin_id, t)?;
    let name = generate_filename(t)?.concat(".md");
    Some(join_path(dir.as_str(), name.as_str()))
}

/// The name of the last component of a path.
pub open spec fn file_name(p: Seq<char>) -> Seq<char>
    decreases p.len(),
{
    if p.len() == 0 {
        p
    } else if p.last() == '/' {
        Seq::empty()
    } else {
        file_name(p.drop_last()).push(p.last())
    }
}

/// A document file: its name ends in `.md` and has a stem before that.
pub open spec fn is_document_name(p: Seq<char>) -> bool {
    let f = file_name(p);
    f.len() > 3 && f.subrange(f.len() - 3, f.len() as int) == ".md"@
}

/// Whether a path names a document file.
pub fn is_document_path(path: &str) -> (r: bool)
    ensures
        r == is_document_name(path@),
{
    let n = path.unicode_len();
    let mut start: usize = n;
    assert(path@.subrange(0, n as int) =~= path@);
    assert(file_name(path@) + path@.subrange(n as int, n as int) =~= file_name(path@));
    while start > 0 && path.get_char(start - 1) != '/'
        invariant
            n == path@.len(),
            start <= n,
            file_name(path@) == file_name(path@.subrange(0, start as int)) + path@.subrange(start as int, n as int),
            forall|k: int| start <= k < n ==> path@[k] != '/',
        decreases start,
    {
        let ghost pre = path@.subrange(0, start as int);
        assert(pre.drop_last() =~= path@.subrange(0, start - 1));
        assert(path@.subrange(start - 1, n as int) =~= seq![pre.last()] + path@.subrange(start as int, n as int));
        start = start - 1;
    }
    proof {
        let pre = path@.subrange(0, start as int);
        if start > 0 {
            assert(file_name(pre) == Seq::<char>::empty());
        } else {
            assert(pre.len() == 0);
        }
        assert(file_name(path@) =~= path@.subrange(start as int, n as int));
        reveal_strlit(".md");
    }
    if n - start <= 3 {
        return false;
    }
    let tail = path.substring_char(n - 3, n);
    proof {
        let f = file_name(path@);
        assert(f.subrange(f.len() - 3, f.len() as int) =~= tail@);
    }
    text_eq(tail, ".md")
}

/// The index row a scanned file contributes: its identifier and its path,
/// when it is a document file that parses.
pub open spec fn scan_row(path: Seq<char>, content: Seq<char>) -> Option<(Seq<char>, Seq<char>)> {
    if is_document_name(path) {
        match parsed(content) {
            Some((f, _)) => Some((f.uuid, path)),
            None => None,
        }
    } else {
        None
    }
}

/// One step of a directory scan: the row of a file given its path
/// relative to the vault and its text; files that are not documents or do
/// not parse contribute nothing.
pub fn scan_entry(relative_path: &str, content: &str) -> (r: Option<(String, String)>)
    ensures
        match r {
            Some((id, p)) => scan_row(relative_path@, content@) == Some((id@, p@)),
            None => scan_row(relative_path@, content@) is None,
        },
{
    if !is_document_path(relative_path) {
        return None;
    }
    match parse_artifact(content) {
        Ok(a) => Some((a.frontmatter.uuid, String::from_str(relative_path))),
        Err(_) => None,
    }
}

/// The rows of a scan, in the order the files were visited.
pub open spec fn scan_rows(files: Seq<(String, String)>) -> Seq<(Seq<char>, Seq<char>)>
    decreases files.len(),
{
    if files.len() == 0 {
        Seq::empty()
    } else {
        let prev = scan_rows(files.drop_last());
        match scan_row(files.last().0@, files.last().1@) {
            Some(row) => prev.push(row),
            None => prev,
        }
    }
}

/// Builds the inventory of a scan from the visited files (path relative to
/// the vault, text), skipping files that are not documents or do not parse.
pub fn scan_vault_artifacts(files: &Vec<(String, String)>) -> (r: Vec<(String, String)>)
    ensures
        r@.map_values(|e: (String, String)| (e.0@, e.1@)) == scan_rows(files@),
{
    let mut out: Vec<(String, String)> = Vec::new();
    let mut i: usize = 0;
    while i < files.len()
        invariant
            i <= files@.len(),
            out@.map_values(|e: (String, String)| (e.0@, e.1@)) == scan_rows(files@.subrange(0, i as int)),
        decreases files@.len() - i,
    {
        assert(files@.subrange(0, i + 1).drop_last() =~= files@.subrange(0, i as int));
        match scan_entry(files[i].0.as_str(), files[i].1.as_str()) {
            Some(row) => {
                let ghost prev = out@;
                let ghost rv = (row.0@, row.1@);
                out.push(row);
                assert(out@.map_values(|e: (String, String)| (e.0@, e.1@)) =~= prev.map_values(
                    |e: (String, String)| (e.0@, e.1@),
                ).push(rv));
            },
            None => {},
        }
        i = i + 1;
    }
    assert(files@.subrange(0, i as int) =~= files@);
    out
}

/// The body after appending `addition`: separated from a non-empty body by
/// a blank line.
pub open spec fn appended(body: Seq<char>, addition: Seq<char>) -> Seq<char> {
    if body.len() == 0 {
        addition
    } else {
        body + "\n\n"@ + addition
    }
}

/// Appends text to a document's body and records the time of the change;
/// nothing else changes.
pub fn append_to_artifact(a: &mut Artifact, addition: &str, now: String)
    ensures
        final(a).content@ == appended(old(a).content@, addition@),
        final(a).frontmatter.updated_at@ == now@,
        final(a).frontmatter.uuid == old(a).frontmatter.uuid,
        final(a).frontmatter.artifact_type == old(a).frontmatter.artifact_type,
        final(a).frontmatter.created_at == old(a).frontmatter.created_at,
        final(a).frontmatter.tags == old(a).frontmatter.tags,
        final(a).frontmatter.schema_version == old(a).frontmatter.schema_version,
        final(a).frontmatter.extra == old(a).frontmatter.extra,
{
    if a.content.unicode_len() > 0 {
        a.content.append("\n\n");
    }
    a.content.append(addition);
    a.frontmatter.updated_at = now;
}

pub open spec fn extra_view(extra: Seq<(String, HeaderValue)>) -> Seq<(Seq<char>, ValueModel)> {
    extra.map_values(|e: (String, HeaderValue)| (e.0@, e.1@))
}

/// Index of the first entry with key `k` at or after `from`, or the length
/// when there is none.
pub open spec fn first_key(extra: Seq<(Seq<char>, ValueModel)>, k: Seq<char>, from: int) -> int
    decreases extra.len() - from,
{
    if from < 0 || from >= extra.len() {
        extra.len() as int
    } else if extra[from].0 == k {
        from
    } else {
        first_key(extra, k, from + 1)
    }
}

/// The entries with `k` set to the string `v`: the first entry of that key
/// is replaced in place, or a new entry is appended.
pub open spec fn with_text(
    extra: Seq<(Seq<char>, ValueModel)>,
    k: Seq<char>,
    v: Seq<char>,
) -> Seq<(Seq<char>, ValueModel)> {
    let p = first_key(extra, k, 0);
    if p < extra.len() {
        extra.update(p, (k, ValueModel::Str(v)))
    } else {
        extra.push((k, ValueModel::Str(v)))
    }
}

/// The entries after setting each given key/value pair in turn.
pub open spec fn with_texts(
    extra: Seq<(Seq<char>, ValueModel)>,
    kvs: Seq<(Seq<char>, Seq<char>)>,
) -> Seq<(Seq<char>, ValueModel)>
    decreases kvs.len(),
{
    if kvs.len() == 0 {
        extra
    } else {
        let prev = with_texts(extra, kvs.drop_last());
        with_text(prev, kvs.last().0, kvs.last().1)
    }
}

/// The extra entries of a new document: the title (if any), then the
/// given fields.
pub open spec fn new_extra(title: Option<String>, fields: Seq<(String, String)>) -> Seq<
    (Seq<char>, ValueModel),
> {
    let start = match title {
        Some(t) => seq![("title"@, ValueModel::Str(t@))],
        None => Seq::empty(),
    };
    with_texts(start, fields.map_values(|e: (String, String)| (e.0@, e.1@)))
}

/// Sets an extra header entry to a string, replacing the first entry of
/// the same key in place or appending it.
pub fn set_extra_text(extra: &mut Vec<(String, HeaderValue)>, key: &String, value: &String)
    ensures
        extra_view(final(extra)@) == with_text(extra_view(old(extra)@), key@, value@),
{
    let ghost view = extra_view(extra@);
    let mut i: usize = 0;
    while i < extra.len()
        invariant
            i <= extra@.len(),
            extra@ == old(extra)@,
            view == extra_view(old(extra)@),
            first_key(view, key@, 0) == first_key(view, key@, i as int),
        decreases extra@.len() - i,
    {
        if text_eq(extra[i].0.as_str(), key.as_str()) {
            assert(first_key(view, key@, i as int) == i as int);
            extra.set(i, (key.clone(), HeaderValue::Str(value.clone())));
            assert(extra_view(extra@) =~= view.update(i as int, (key@, ValueModel::Str(value@))));
            return ;
        }
        i = i + 1;
    }
    extra.push((key.clone(), HeaderValue::Str(value.clone())));
    assert(extra_view(extra@) =~= view.push((key@, ValueModel::Str(value@))));
}

/// A new document of type `artifact_type`: identifier and creation time
/// from the caller, no tags, schema version `1.0`, the title (if any) and
/// then the given fields as string entries, later keys replacing earlier
/// ones in place.
pub fn new_artifact(
    artifact_type: &str,
    uuid: String,
    now: String,
    title: Option<String>,
    fields: &Vec<(String, String)>,
    body: String,
) -> (r: Artifact)
    ensures
        r.frontmatter.uuid == uuid,
        r.frontmatter.artifact_type@ == artifact_type@,
        r.frontmatter.created_at@ == now@,
        r.frontmatter.updated_at@ == now@,
        r.frontmatter.tags@.len() == 0,
        r.frontmatter.schema_version@ == "1.0"@,
        r.content == body,
        extra_view(r.frontmatter.extra@) == new_extra(title, fields@),
{
    let mut extra: Vec<(String, HeaderValue)> = Vec::new();
    let ghost start: Seq<(Seq<char>, ValueModel)> = new_extra(title, Seq::empty());
    proof {
        let e = Seq::<(String, String)>::empty().map_values(|e: (String, String)| (e.0@, e.1@));
        assert(e =~= Seq::<(Seq<char>, Seq<char>)>::empty());
    }
    match &title {
        Some(t) => {
            let k = String::from_str("title");
            extra.push((k, HeaderValue::Str(t.clone())));
        },
        None => {},
    }
    assert(extra_view(extra@) =~= start) by {
        let e = Seq::<(String, String)>::empty().map_values(|e: (String, String)| (e.0@, e.1@));
        assert(e =~= Seq::<(Seq<char>, Seq<char>)>::empty());
        reveal_strlit("title");
    }
    let ghost kvs = fields@.map_values(|e: (String, String)| (e.0@, e.1@));
    let mut i: usize = 0;
    while i < fields.len()
        invariant
            i <= fields@.len(),
            kvs == fields@.map_values(|e: (String, String)| (e.0@, e.1@)),
            extra_view(extra@) == with_texts(start, kvs.subrange(0, i as int)),
        decreases fields@.len() - i,
    {
        assert(kvs.subrange(0, i + 1).drop_last() =~= kvs.subrange(0, i as int));
        set_extra_text(&mut extra, &fields[i].0, &fields[i].1);
        i = i + 1;
    }
    assert(kvs.subrange(0, i as int) =~= kvs);
    assert(new_extra(title, fields@) == with_texts(start, kvs)) by {
        let e = Seq::<(String, String)>::empty().map_values(|e: (String, String)| (e.0@, e.1@));
        assert(e =~= Seq::<(Seq<char>, Seq<char>)>::empty());
    }
    Artifact {
        frontmatter: ArtifactFrontmatter {
            uuid,
            artifact_type: String::from_str(artifact_type),
            created_at: now.clone(),
            updated_at: now,
            tags: Vec::new(),
            schema_version: String::from_str("1.0"),
            extra,
        },
        content: body,
    }
}

/// A document whose last change is dated before its creation: the
/// inconsistency a maintenance pass reports. None when either time does not
/// parse.
pub fn has_inverted_timestamps(f: &ArtifactFrontmatter) -> (r: Option<bool>)
    ensures
        match (timestamp_value(f.created_at@), timestamp_value(f.updated_at@)) {
            (Some(c), Some(u)) => r == Some(u.0 < c.0 || (u.0 == c.0 && u.1 < c.1)),
            _ => r is None,
        },
{
    let created = parse_timestamp(f.created_at.as_str())?;
    let updated = parse_timestamp(f.updated_at.as_str())?;
    Some(updated.is_before(&created))
}

} // verus!
