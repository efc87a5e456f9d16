use vstd::prelude::*;
use crate::clock::{parse_timestamp, timestamp_value};
use crate::error::AethelError;
use crate::ident::{parse_uuid, uuid_value};
use crate::registry::get_str;
use crate::text::{occurs_at, text_eq, trim_text, trimmed};
use crate::value::{map_get, str_of, HeaderValue, ValueModel};
use crate::yaml::{decode_yaml, encode_yaml, yaml_decoded, yaml_encoded};

verus! {

/// The delimiter line text that frames a document header.
pub open spec fn delim() -> Seq<char> {
    "---"@
}

/// A delimiter starts at position `i` of `s`.
pub open spec fn delim_at(s: Seq<char>, i: int) -> bool {
    0 <= i && i + delim().len() <= s.len() && s.subrange(i, i + delim().len()) == delim()
}

/// The first delimiter at or after `from`.
pub open spec fn first_delim_from(s: Seq<char>, from: int) -> Option<int>
    decreases s.len() - from,
{
    if from < 0 || from >= s.len() {
        None
    } else if delim_at(s, from) {
        Some(from)
    } else {
        first_delim_from(s, from + 1)
    }
}

/// The three parts of a document split at its first two delimiters: what
/// precedes the header, the header text, and the rest; none when the text
/// holds fewer than two delimiters.
pub open spec fn frame_parts(s: Seq<char>) -> Option<(Seq<char>, Seq<char>, Seq<char>)> {
    match first_delim_from(s, 0) {
        None => None,
        Some(i) => match first_delim_from(s, i + delim().len()) {
            None => None,
            Some(j) => Some(
                (
                    s.subrange(0, i),
                    s.subrange(i + delim().len(), j),
                    s.subrange(j + delim().len(), s.len() as int),
                ),
            ),
        },
    }
}

/// A document's text: delimiter line, header, delimiter line, body.
pub open spec fn framed(header: Seq<char>, body: Seq<char>) -> Seq<char> {
    "---\n"@ + header + "---\n"@ + body
}

/// The header keys that the document record models itself.
pub open spec fn reserved_key(k: Seq<char>) -> bool {
    k == "uuid"@ || k == "type"@ || k == "createdAt"@ || k == "updatedAt"@ || k == "tags"@ || k
        == "schemaVersion"@
}

/// The metadata header of a document.
pub struct ArtifactFrontmatter {
    /// The textual identifier, as written.
    pub uuid: String,
    /// `<extension>/<schema>`.
    pub artifact_type: String,
    /// RFC 3339 creation time, as written.
    pub created_at: String,
    /// RFC 3339 time of the last change, as written.
    pub updated_at: String,
    pub tags: Vec<String>,
    pub schema_version: String,
    /// Header entries the record does not model, in order.
    pub extra: Vec<(String, HeaderValue)>,
}

pub struct FrontmatterModel {
    pub uuid: Seq<char>,
    pub artifact_type: Seq<char>,
    pub created_at: Seq<char>,
    pub updated_at: Seq<char>,
    pub tags: Seq<Seq<char>>,
    pub schema_version: Seq<char>,
    pub extra: Seq<(Seq<char>, ValueModel)>,
}

impl View for ArtifactFrontmatter {
    type V = FrontmatterModel;

    open spec fn view(&self) -> FrontmatterModel {
        FrontmatterModel {
            uuid: self.uuid@,
            artifact_type: self.artifact_type@,
            created_at: self.created_at@,
            updated_at: self.updated_at@,
            tags: self.tags@.map_values(|t: String| t@),
            schema_version: self.schema_version@,
            extra: self.extra@.map_values(|e: (String, HeaderValue)| (e.0@, e.1@)),
        }
    }
}

/// A document: its header and its body.
pub struct Artifact {
    pub frontmatter: ArtifactFrontmatter,
    pub content: String,
}

/// The texts of a list of values, when every one is a string.
pub open spec fn strs_of(items: Seq<ValueModel>) -> Option<Seq<Seq<char>>>
    decreases items.len(),
{
    if items.len() == 0 {
        Some(Seq::empty())
    } else {
        match (strs_of(items.drop_last()), items.last()) {
            (Some(p), ValueModel::Str(t)) => Some(p.push(t)),
            _ => None,
        }
    }
}

/// The entries of a header that the record does not model, when every key
/// is a string.
pub open spec fn extra_of(entries: Seq<(ValueModel, ValueModel)>) -> Option<
    Seq<(Seq<char>, ValueModel)>,
>
    decreases entries.len(),
{
    if entries.len() == 0 {
        Some(Seq::empty())
    } else {
        match (extra_of(entries.drop_last()), entries.last().0) {
            (Some(p), ValueModel::Str(k)) => if reserved_key(k) {
                Some(p)
            } else {
                Some(p.push((k, entries.last().1)))
            },
            _ => None,
        }
    }
}

/// The tags of a header: none when absent, else a list of strings.
pub open spec fn tags_of(v: Option<ValueModel>) -> Option<Seq<Seq<char>>> {
    match v {
        None => Some(Seq::empty()),
        Some(ValueModel::Sequence(items)) => strs_of(items),
        _ => None,
    }
}

/// A header decodes into a record: it is a mapping with string keys, its
/// identifier and both times are well formed, `type` and `schemaVersion`
/// are strings, and `tags` is absent or a list of strings.
pub open spec fn header_ok(h: ValueModel) -> bool {
    &&& h is Mapping
    &&& str_of(h.lookup("uuid"@)) matches Some(u) && uuid_value(u) is Some
    &&& str_of(h.lookup("type"@)) is Some
    &&& str_of(h.lookup("createdAt"@)) matches Some(c) && timestamp_value(c) is Some
    &&& str_of(h.lookup("updatedAt"@)) matches Some(m) && timestamp_value(m) is Some
    &&& tags_of(h.lookup("tags"@)) is Some
    &&& str_of(h.lookup("schemaVersion"@)) is Some
    &&& extra_of(h->Mapping_0) is Some
}

/// The record a header decodes into.
pub open spec fn frontmatter_of(h: ValueModel) -> Option<FrontmatterModel> {
    if header_ok(h) {
        Some(
            FrontmatterModel {
                uuid: str_of(h.lookup("uuid"@))->Some_0,
                artifact_type: str_of(h.lookup("type"@))->Some_0,
                created_at: str_of(h.lookup("createdAt"@))->Some_0,
                updated_at: str_of(h.lookup("updatedAt"@))->Some_0,
                tags: tags_of(h.lookup("tags"@))->Some_0,
                schema_version: str_of(h.lookup("schemaVersion"@))->Some_0,
                extra: extra_of(h->Mapping_0)->Some_0,
            },
        )
    } else {
        None
    }
}

/// The header a record is written as: the six modelled keys, then the
/// other entries in order.
pub open spec fn header_model(f: FrontmatterModel) -> ValueModel {
    ValueModel::Mapping(
        seq![
            (ValueModel::Str("uuid"@), ValueModel::Str(f.uuid)),
            (ValueModel::Str("type"@), ValueModel::Str(f.artifact_type)),
            (ValueModel::Str("createdAt"@), ValueModel::Str(f.created_at)),
            (ValueModel::Str("updatedAt"@), ValueModel::Str(f.updated_at)),
            (
                ValueModel::Str("tags"@),
                ValueModel::Sequence(f.tags.map_values(|t: Seq<char>| ValueModel::Str(t))),
            ),
            (ValueModel::Str("schemaVersion"@), ValueModel::Str(f.schema_version)),
        ] + f.extra.map_values(|e: (Seq<char>, ValueModel)| (ValueModel::Str(e.0), e.1)),
    )
}

/// What `parse_artifact` gives for a text, as (header record, body).
pub open spec fn parsed(s: Seq<char>) -> Option<(FrontmatterModel, Seq<char>)> {
    match frame_parts(s) {
        None => None,
        Some(p) => match yaml_decoded(p.1) {
            None => None,
            Some(h) => match frontmatter_of(h) {
                None => None,
                Some(f) => Some((f, trimmed(p.2))),
            },
        },
    }
}

proof fn lemma_first_delim(s: Seq<char>, from: int)
    ensures
        first_delim_from(s, from) matches Some(i) ==> from <= i && delim_at(s, i),
    decreases s.len() - from,
{
    if 0 <= from < s.len() && !delim_at(s, from) {
        lemma_first_delim(s, from + 1);
    }
}

/// The first delimiter at or after `from`.
pub fn find_delim(s: &str, from: usize) -> (r: Option<usize>)
    requires
        from <= s@.len(),
    ensures
        match r {
            Some(i) => first_delim_from(s@, from as int) == Some(i as int),
            None => first_delim_from(s@, from as int) is None,
        },
{
    let n = s.unicode_len();
    let mut i: usize = from;
    while i < n
        invariant
            n == s@.len(),
            from <= i <= n,
            first_delim_from(s@, from as int) == first_delim_from(s@, i as int),
        decreases n - i,
    {
        if occurs_at(s, "---", i) {
            return Some(i);
        }
        i = i + 1;
    }
    None
}

/// Splits a document text into its header text and its raw body, or
/// reports a malformed document when the text holds fewer than two
/// delimiters.
pub fn split_frontmatter(content: &str) -> (r: Result<(String, String), AethelError>)
    ensures
        match r {
            Ok((h, b)) => frame_parts(content@) matches Some(p) && p.1 == h@ && p.2 == b@,
            Err(e) => frame_parts(content@) is None && e is MalformedDocument,
        },
{
    let n = content.unicode_len();
    let dl = "---".unicode_len();
    let i = match find_delim(content, 0) {
        Some(i) => i,
        None => {
            return Err(AethelError::MalformedDocument(String::from_str("missing frontmatter")));
        },
    };
    proof {
        lemma_first_delim(content@, 0);
    }
    let j = match find_delim(content, i + dl) {
        Some(j) => j,
        None => {
            return Err(AethelError::MalformedDocument(String::from_str("missing frontmatter")));
        },
    };
    proof {
        lemma_first_delim(content@, i + dl);
    }
    let h = content.substring_char(i + dl, j);
    let b = content.substring_char(j + dl, n);
    Ok((String::from_str(h), String::from_str(b)))
}

/// Writes the framing around a header text and a body.
pub fn frame_document(header: &str, body: &str) -> (r: String)
    ensures
        r@ == framed(header@, body@),
{
    String::from_str("---\n").concat(header).concat("---\n").concat(body)
}


/// Whether a header key is one the record models itself.
pub fn is_reserved_key(k: &str) -> (r: bool)
    ensures
        r == reserved_key(k@),
{
    text_eq(k, "uuid") || text_eq(k, "type") || text_eq(k, "createdAt") || text_eq(k, "updatedAt")
        || text_eq(k, "tags") || text_eq(k, "schemaVersion")
}

pub open spec fn items_view(items: Seq<HeaderValue>) -> Seq<ValueModel> {
    Seq::new(items.len(), |k: int| items[k]@)
}

pub open spec fn entries_view(entries: Seq<(HeaderValue, HeaderValue)>) -> Seq<(ValueModel, ValueModel)> {
    Seq::new(entries.len(), |k: int| (entries[k].0@, entries[k].1@))
}

fn strings_of(items: &Vec<HeaderValue>) -> (r: Option<Vec<String>>)
    ensures
        match r {
            Some(v) => strs_of(items_view(items@)) == Some(v@.map_values(|t: String| t@)),
            None => strs_of(items_view(items@)) is None,
        },
{
    let ghost all = items_view(items@);
    let mut out: Vec<String> = Vec::new();
    let mut i: usize = 0;
    while i < items.len()
        invariant
            i <= items@.len(),
            all == items_view(items@),
            strs_of(all.subrange(0, i as int)) == Some(out@.map_values(|t: String| t@)),
        decreases items@.len() - i,
    {
        assert(all.subrange(0, i + 1).drop_last() =~= all.subrange(0, i as int));
        match &items[i] {
            HeaderValue::Str(t) => {
                let ghost prev = out@;
                out.push(t.clone());
                assert(out@.map_values(|t: String| t@) =~= prev.map_values(|t: String| t@).push(t@));
            },
            _ => {
                proof {
                    lemma_strs_of_prefix_fails(all, i as int + 1);
                }
                return None;
            },
        }
        i = i + 1;
    }
    assert(all.subrange(0, i as int) =~= all);
    Some(out)
}

proof fn lemma_strs_of_prefix_fails(items: Seq<ValueModel>, n: int)
    requires
        0 < n <= items.len(),
        strs_of(items.subrange(0, n)) is None,
    ensures
        strs_of(items) is None,
    decreases items.len() - n,
{
    if n < items.len() {
        assert(items.subrange(0, n + 1).drop_last() =~= items.subrange(0, n));
        lemma_strs_of_prefix_fails(items, n + 1);
    } else {
        assert(items.subrange(0, n) =~= items);
    }
}

proof fn lemma_extra_of_prefix_fails(entries: Seq<(ValueModel, ValueModel)>, n: int)
    requires
        0 < n <= entries.len(),
        extra_of(entries.subrange(0, n)) is None,
    ensures
        extra_of(entries) is None,
    decreases entries.len() - n,
{
    if n < entries.len() {
        assert(entries.subrange(0, n + 1).drop_last() =~= entries.subrange(0, n));
        lemma_extra_of_prefix_fails(entries, n + 1);
    } else {
        assert(entries.subrange(0, n) =~= entries);
    }
}

fn extra_entries(entries: &Vec<(HeaderValue, HeaderValue)>) -> (r: Option<Vec<(String, HeaderValue)>>)
    ensures
        match r {
            Some(v) => extra_of(entries_view(entries@)) == Some(
                v@.map_values(|e: (String, HeaderValue)| (e.0@, e.1@)),
            ),
            None => extra_of(entries_view(entries@)) is None,
        },
{
    let ghost all = entries_view(entries@);
    let mut out: Vec<(String, HeaderValue)> = Vec::new();
    let mut i: usize = 0;
    while i < entries.len()
        invariant
            i <= entries@.len(),
            all == entries_view(entries@),
            extra_of(all.subrange(0, i as int)) == Some(
                out@.map_values(|e: (String, HeaderValue)| (e.0@, e.1@)),
            ),
        decreases entries@.len() - i,
    {
        assert(all.subrange(0, i + 1).drop_last() =~= all.subrange(0, i as int));
        let e = &entries[i];
        match &e.0 {
            HeaderValue::Str(k) => {
                if !is_reserved_key(k.as_str()) {
                    let ghost prev = out@;
                    let v = e.1.duplicate();
                    out.push((k.clone(), v));
                    assert(out@.map_values(|e: (String, HeaderValue)| (e.0@, e.1@)) =~= prev.map_values(
                        |e: (String, HeaderValue)| (e.0@, e.1@),
                    ).push((k@, e.1@)));
                }
            },
            _ => {
                proof {
                    lemma_extra_of_prefix_fails(all, i as int + 1);
                }
                return None;
            },
        }
        i = i + 1;
    }
    assert(all.subrange(0, i as int) =~= all);
    Some(out)
}

fn malformed() -> (e: AethelError)
    ensures
        e is MalformedDocument,
{
    AethelError::MalformedDocument(String::from_str("invalid frontmatter"))
}

/// Decodes a header value tree into the document record.
pub fn frontmatter_from_header(h: &HeaderValue) -> (r: Result<ArtifactFrontmatter, AethelError>)
    ensures
        match r {
            Ok(f) => frontmatter_of(h@) == Some(f@),
            Err(e) => frontmatter_of(h@) is None && e is MalformedDocument,
        },
{
    let entries = match h {
        HeaderValue::Mapping(m) => m,
        _ => {
            return Err(malformed());
        },
    };
    assert(h@->Mapping_0 == entries_view(entries@)) by {
        assert(h@->Mapping_0 =~= entries_view(entries@));
    }
    let uuid = match get_str(h, "uuid") {
        Some(u) => u,
        None => {
            return Err(malformed());
        },
    };
    if parse_uuid(uuid.as_str()).is_none() {
        return Err(malformed());
    }
    let artifact_type = match get_str(h, "type") {
        Some(t) => t,
        None => {
            return Err(malformed());
        },
    };
    let created_at = match get_str(h, "createdAt") {
        Some(t) => t,
        None => {
            return Err(malformed());
        },
    };
    if parse_timestamp(created_at.as_str()).is_none() {
        return Err(malformed());
    }
    let updated_at = match get_str(h, "updatedAt") {
        Some(t) => t,
        None => {
            return Err(malformed());
        },
    };
    if parse_timestamp(updated_at.as_str()).is_none() {
        return Err(malformed());
    }
    let tags: Vec<String> = match h.get("tags") {
        None => {
            let v: Vec<String> = Vec::new();
            assert(v@.map_values(|t: String| t@) =~= Seq::<Seq<char>>::empty());
            v
        },
        Some(HeaderValue::Sequence(items)) => {
            assert(HeaderValue::Sequence(*items)@ == ValueModel::Sequence(items_view(items@))) by {
                if let ValueModel::Sequence(m) = HeaderValue::Sequence(*items)@ {
                    assert(m =~= items_view(items@));
                }
            }
            match strings_of(items) {
                Some(v) => v,
                None => {
                    return Err(malformed());
                },
            }
        },
        Some(other) => {
            assert(!(other@ is Sequence));
            return Err(malformed());
        },
    };
    let schema_version = match get_str(h, "schemaVersion") {
        Some(t) => t,
        None => {
            return Err(malformed());
        },
    };
    let extra = match extra_entries(entries) {
        Some(x) => x,
        None => {
            return Err(malformed());
        },
    };
    Ok(ArtifactFrontmatter { uuid, artifact_type, created_at, updated_at, tags, schema_version, extra })
}

fn text_entry(k: &str, v: &String) -> (r: (HeaderValue, HeaderValue))
    ensures
        r.0@ == ValueModel::Str(k@),
        r.1@ == ValueModel::Str(v@),
{
    (HeaderValue::Str(String::from_str(k)), HeaderValue::Str(v.clone()))
}

/// The header value tree a record is written as.
pub fn header_of_frontmatter(f: &ArtifactFrontmatter) -> (r: HeaderValue)
    ensures
        r@ == header_model(f@),
{
    let mut entries: Vec<(HeaderValue, HeaderValue)> = Vec::new();
    entries.push(text_entry("uuid", &f.uuid));
    entries.push(text_entry("type", &f.artifact_type));
    entries.push(text_entry("createdAt", &f.created_at));
    entries.push(text_entry("updatedAt", &f.updated_at));
    let mut tags: Vec<HeaderValue> = Vec::new();
    let mut i: usize = 0;
    while i < f.tags.len()
        invariant
            i <= f.tags@.len(),
            tags@.len() == i,
            forall|k: int| 0 <= k < i ==> #[trigger] tags@[k]@ == ValueModel::Str(f.tags@[k]@),
        decreases f.tags@.len() - i,
    {
        tags.push(HeaderValue::Str(f.tags[i].clone()));
        i = i + 1;
    }
    let tv = HeaderValue::Sequence(tags);
    assert(tv@ == ValueModel::Sequence(f@.tags.map_values(|t: Seq<char>| ValueModel::Str(t)))) by {
        if let ValueModel::Sequence(m) = tv@ {
            let want = f@.tags.map_values(|t: Seq<char>| ValueModel::Str(t));
            assert(m.len() == want.len());
            assert forall|k: int| 0 <= k < m.len() implies m[k] == want[k] by {
                assert(tags@[k]@ == ValueModel::Str(f.tags@[k]@));
            }
            assert(m =~= want);
        }
    }
    entries.push((HeaderValue::Str(String::from_str("tags")), tv));
    entries.push(text_entry("schemaVersion", &f.schema_version));
    assert(header_model(f@)->Mapping_0[4].1 == tv@);
    let mut j: usize = 0;
    while j < f.extra.len()
        invariant
            j <= f.extra@.len(),
            entries@.len() == 6 + j,
            forall|k: int|
                0 <= k < 6 ==> (#[trigger] entries@[k]).0@ == header_model(f@)->Mapping_0[k].0
                    && entries@[k].1@ == header_model(f@)->Mapping_0[k].1,
            forall|k: int|
                0 <= k < j ==> (#[trigger] entries@[6 + k]).0@ == ValueModel::Str(f.extra@[k].0@)
                    && entries@[6 + k].1@ == f.extra@[k].1@,
        decreases f.extra@.len() - j,
    {
        let k = HeaderValue::Str(f.extra[j].0.clone());
        let v = f.extra[j].1.duplicate();
        entries.push((k, v));
        j = j + 1;
    }
    let r = HeaderValue::Mapping(entries);
    assert(r@ == header_model(f@)) by {
        if let ValueModel::Mapping(m) = r@ {
            let want = header_model(f@)->Mapping_0;
            assert(m.len() == want.len());
            assert forall|k: int| 0 <= k < m.len() implies m[k] == want[k] by {
                if k < 6 {
                    assert(entries@[k].0@ == want[k].0);
                } else {
                    assert(entries@[6 + (k - 6)].0@ == ValueModel::Str(f.extra@[k - 6].0@));
                }
            }
            assert(m =~= want);
        }
    }
    r
}

/// Parses a document text: framing, then the YAML header, then the record;
/// the body is the text after the second delimiter with surrounding
/// whitespace removed.
pub fn parse_artifact(content: &str) -> (r: Result<Artifact, AethelError>)
    ensures
        match r {
            Ok(a) => parsed(content@) == Some((a.frontmatter@, a.content@)),
            Err(e) => parsed(content@) is None && e is MalformedDocument,
        },
        frame_parts(content@) is None ==> r is Err,
{
    let (header, raw_body) = split_frontmatter(content)?;
    let tree = match decode_yaml(header.as_str()) {
        Some(t) => t,
        None => {
            return Err(AethelError::MalformedDocument(String::from_str("invalid YAML header")));
        },
    };
    let frontmatter = frontmatter_from_header(&tree)?;
    let body = trim_text(raw_body.as_str());
    Ok(Artifact { frontmatter, content: body })
}

/// Writes a document: framing around the YAML header and the body.
pub fn serialize_artifact(a: &Artifact) -> (r: Result<String, AethelError>)
    ensures
        match r {
            Ok(s) => yaml_encoded(header_model(a.frontmatter@)) matches Some(y) && s@ == framed(
                y,
                a.content@,
            ),
            Err(e) => yaml_encoded(header_model(a.frontmatter@)) is None && e is ValidationError,
        },
{
    let tree = header_of_frontmatter(&a.frontmatter);
    match encode_yaml(&tree) {
        Some(y) => Ok(frame_document(y.as_str(), a.content.as_str())),
        None => Err(AethelError::ValidationError(String::from_str("header cannot be written"))),
    }
}


proof fn lemma_first_delim_is(s: Seq<char>, from: int, j: int)
    requires
        0 <= from <= j,
        delim_at(s, j),
        forall|k: int| from <= k < j ==> !delim_at(s, k),
    ensures
        first_delim_from(s, from) == Some(j),
    decreases j - from,
{
    reveal_strlit("---");
    if from < j {
        lemma_first_delim_is(s, from + 1, j);
    }
}

/// A text with at most one delimiter occurrence has no header: parsing it
/// fails as malformed and yields no record.
pub proof fn lemma_single_delimiter_malformed(s: Seq<char>)
    requires
        forall|i: int, j: int| delim_at(s, i) && delim_at(s, j) ==> i == j,
    ensures
        frame_parts(s) is None,
        parsed(s) is None,
{
    lemma_first_delim(s, 0);
    if let Some(i) = first_delim_from(s, 0) {
        lemma_first_delim(s, i + delim().len());
        reveal_strlit("---");
    }
}

/// Framing round trip: a header text without delimiters that is empty or
/// ends in a newline, framed with a body, splits back into that header and
/// body, each behind the newline of its delimiter line.
pub proof fn lemma_framing_round_trip(h: Seq<char>, b: Seq<char>)
    requires
        forall|i: int| !delim_at(h, i),
        h.len() == 0 || h.last() == '\n',
    ensures
        frame_parts(framed(h, b)) == Some((Seq::<char>::empty(), "\n"@ + h, "\n"@ + b)),
{
    reveal_strlit("---");
    reveal_strlit("---\n");
    reveal_strlit("\n");
    let s = framed(h, b);
    let j: int = 4 + h.len() as int;
    assert(s.len() == 8 + h.len() + b.len());
    assert(s[0] == '-' && s[1] == '-' && s[2] == '-');
    assert(s[3] == '\n');
    assert(forall|k: int| 0 <= k < h.len() ==> s[4 + k] == #[trigger] h[k]);
    assert(s[j] == '-' && s[j + 1] == '-' && s[j + 2] == '-');
    assert(s[j + 3] == '\n');
    assert(forall|k: int| 0 <= k < b.len() ==> s[j + 4 + k] == #[trigger] b[k]);
    assert(s.subrange(0, 3) =~= delim());
    assert(delim_at(s, 0));
    lemma_first_delim_is(s, 0, 0);
    assert(s.subrange(j, j + 3) =~= delim());
    assert forall|k: int| 3 <= k < j implies !delim_at(s, k) by {
        if delim_at(s, k) {
            assert(s.subrange(k, k + 3)[0] == s[k]);
            if k == 3 {
            } else if k + 3 <= j {
                assert(h.subrange(k - 4, k - 1) =~= s.subrange(k, k + 3));
                assert(delim_at(h, k - 4));
            } else {
                let q = 3 + h.len() - k;
                assert(0 <= q < 3);
                assert(s.subrange(k, k + 3)[q] == s[3 + h.len() as int]);
                assert(s[4 + (h.len() - 1) as int] == h[h.len() - 1]);
            }
        }
    }
    lemma_first_delim_is(s, 3, j);
    assert(s.subrange(0, 0) =~= Seq::<char>::empty());
    assert(s.subrange(3, j) =~= "\n"@ + h);
    assert(s.subrange(j + 3, s.len() as int) =~= "\n"@ + b);
}

proof fn lemma_map_get_at(es: Seq<(ValueModel, ValueModel)>, key: Seq<char>, i: int)
    requires
        0 <= i < es.len(),
        es[i].0 == ValueModel::Str(key),
        forall|k: int| 0 <= k < i ==> es[k].0 != ValueModel::Str(key),
    ensures
        map_get(es, key) == Some(es[i].1),
    decreases i,
{
    if i > 0 {
        assert forall|k: int| 0 <= k < i - 1 implies es.drop_first()[k].0 != ValueModel::Str(key) by {
            assert(es.drop_first()[k] == es[k + 1]);
        }
        lemma_map_get_at(es.drop_first(), key, i - 1);
    }
}

proof fn lemma_strs_of_map(tags: Seq<Seq<char>>)
    ensures
        strs_of(tags.map_values(|t: Seq<char>| ValueModel::Str(t))) == Some(tags),
    decreases tags.len(),
{
    let m = tags.map_values(|t: Seq<char>| ValueModel::Str(t));
    if tags.len() > 0 {
        lemma_strs_of_map(tags.drop_last());
        assert(m.drop_last() =~= tags.drop_last().map_values(|t: Seq<char>| ValueModel::Str(t)));
        assert(tags.drop_last().push(tags.last()) =~= tags);
    } else {
        assert(tags =~= Seq::<Seq<char>>::empty());
    }
}

proof fn lemma_extra_of_header(p: Seq<(ValueModel, ValueModel)>, extra: Seq<(Seq<char>, ValueModel)>)
    requires
        extra_of(p) == Some(Seq::<(Seq<char>, ValueModel)>::empty()),
        forall|k: int| 0 <= k < extra.len() ==> !reserved_key(#[trigger] extra[k].0),
    ensures
        extra_of(p + extra.map_values(|e: (Seq<char>, ValueModel)| (ValueModel::Str(e.0), e.1)))
            == Some(extra),
    decreases extra.len(),
{
    let f = |e: (Seq<char>, ValueModel)| (ValueModel::Str(e.0), e.1);
    let all = p + extra.map_values(f);
    if extra.len() > 0 {
        lemma_extra_of_header(p, extra.drop_last());
        assert(all.drop_last() =~= p + extra.drop_last().map_values(f));
        assert(extra.drop_last().push(extra.last()) =~= extra);
        assert(!reserved_key(extra[extra.len() - 1].0));
    } else {
        assert(all =~= p);
        assert(extra =~= Seq::<(Seq<char>, ValueModel)>::empty());
    }
}

/// Header round trip: a record whose identifier and times are well formed
/// and whose other entries use none of the modelled keys decodes back from
/// the header it is written as, unknown entries included.
pub proof fn lemma_header_round_trip(f: FrontmatterModel)
    requires
        uuid_value(f.uuid) is Some,
        timestamp_value(f.created_at) is Some,
        timestamp_value(f.updated_at) is Some,
        forall|k: int| 0 <= k < f.extra.len() ==> !reserved_key(#[trigger] f.extra[k].0),
    ensures
        frontmatter_of(header_model(f)) == Some(f),
{
    reveal_strlit("uuid");
    reveal_strlit("type");
    reveal_strlit("createdAt");
    reveal_strlit("updatedAt");
    reveal_strlit("tags");
    reveal_strlit("schemaVersion");
    let h = header_model(f);
    let es = h->Mapping_0;
    let p = es.subrange(0, 6);
    let fx = |e: (Seq<char>, ValueModel)| (ValueModel::Str(e.0), e.1);
    assert(es =~= p + f.extra.map_values(fx));
    let names = seq!["uuid"@, "type"@, "createdAt"@, "updatedAt"@, "tags"@, "schemaVersion"@];
    assert forall|a: int, c: int| 0 <= a < c < 6 implies names[a] != names[c] by {
        assert(names[a].len() != names[c].len() || names[a][0] != names[c][0] || names[a][1] != names[c][1]);
    }
    assert forall|i: int| 0 <= i < 6 implies #[trigger] es[i].0 == ValueModel::Str(names[i]) by {}
    assert forall|i: int| 0 <= i < 6 implies map_get(es, #[trigger] names[i]) == Some(es[i].1) by {
        assert forall|k: int| 0 <= k < i implies es[k].0 != ValueModel::Str(names[i]) by {
            assert(names[k] != names[i]);
        }
        lemma_map_get_at(es, names[i], i);
    }
    assert(names[0] == "uuid"@ && names[1] == "type"@ && names[2] == "createdAt"@);
    assert(names[3] == "updatedAt"@ && names[4] == "tags"@ && names[5] == "schemaVersion"@);
    lemma_strs_of_map(f.tags);
    assert(p.drop_last().drop_last().drop_last().drop_last().drop_last().drop_last() =~= Seq::<(ValueModel, ValueModel)>::empty());
    assert(extra_of(p) == Some(Seq::<(Seq<char>, ValueModel)>::empty())) by {
        let e = Seq::<(Seq<char>, ValueModel)>::empty();
        assert(extra_of(p.subrange(0, 0)) == Some(e));
        assert(p.subrange(0, 1).drop_last() =~= p.subrange(0, 0));
        assert(extra_of(p.subrange(0, 1)) == Some(e));
        assert(p.subrange(0, 2).drop_last() =~= p.subrange(0, 1));
        assert(extra_of(p.subrange(0, 2)) == Some(e));
        assert(p.subrange(0, 3).drop_last() =~= p.subrange(0, 2));
        assert(extra_of(p.subrange(0, 3)) == Some(e));
        assert(p.subrange(0, 4).drop_last() =~= p.subrange(0, 3));
        assert(extra_of(p.subrange(0, 4)) == Some(e));
        assert(p.subrange(0, 5).drop_last() =~= p.subrange(0, 4));
        assert(extra_of(p.subrange(0, 5)) == Some(e));
        assert(p.subrange(0, 6).drop_last() =~= p.subrange(0, 5));
        assert(p.subrange(0, 6) =~= p);
    }
    lemma_extra_of_header(p, f.extra);
}

/// Document round trip: a record and a body survive being written and
/// parsed back, given what the YAML layer does with its own output (the
/// header text it emits holds no delimiter, ends in a newline, and decodes
/// back to the same tree) and a body that trimming leaves unchanged.
pub proof fn lemma_document_round_trip(f: FrontmatterModel, y: Seq<char>, b: Seq<char>)
    requires
        uuid_value(f.uuid) is Some,
        timestamp_value(f.created_at) is Some,
        timestamp_value(f.updated_at) is Some,
        forall|k: int| 0 <= k < f.extra.len() ==> !reserved_key(#[trigger] f.extra[k].0),
        yaml_encoded(header_model(f)) == Some(y),
        forall|i: int| !delim_at(y, i),
        y.len() == 0 || y.last() == '\n',
        yaml_decoded("\n"@ + y) == Some(header_model(f)),
        trimmed("\n"@ + b) == b,
    ensures
        parsed(framed(y, b)) == Some((f, b)),
{
    lemma_framing_round_trip(y, b);
    lemma_header_round_trip(f);
}

/// Reads a definition document (an extension or a schema): its decoded
/// header and its trimmed body.
pub fn parse_markdown_frontmatter(content: &str) -> (r: Result<(HeaderValue, String), AethelError>)
    ensures
        match r {
            Ok((h, b)) => frame_parts(content@) matches Some(p) && yaml_decoded(p.1) == Some(h@)
                && b@ == trimmed(p.2),
            Err(e) => e is MalformedDocument && (frame_parts(content@) matches Some(p) ==> yaml_decoded(p.1) is None),
        },
{
    let (header, raw_body) = split_frontmatter(content)?;
    let tree = match decode_yaml(header.as_str()) {
        Some(t) => t,
        None => {
            return Err(AethelError::MalformedDocument(String::from_str("invalid YAML header")));
        },
    };
    Ok((tree, trim_text(raw_body.as_str())))
}

} // verus!
