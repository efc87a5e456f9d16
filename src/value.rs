use vstd::prelude::*;

verus! {

broadcast use vstd::std_specs::vec::axiom_vec_index_decreases;

/// An untyped header value: the tagged union that documents and schema
/// definitions are decoded into.
#[derive(Debug)]
pub enum HeaderValue {
    Null,
    Bool(bool),
    /// A number, kept as the text it was written with.
    Number(String),
    Str(String),
    Sequence(Vec<HeaderValue>),
    /// Key/value pairs in the order they were written.
    Mapping(Vec<(HeaderValue, HeaderValue)>),
}

/// The mathematical content of a `HeaderValue`.
pub enum ValueModel {
    Null,
    Bool(bool),
    Number(Seq<char>),
    Str(Seq<char>),
    Sequence(Seq<ValueModel>),
    Mapping(Seq<(ValueModel, ValueModel)>),
}

pub open spec fn value_model(v: HeaderValue) -> ValueModel
    decreases v,
{
    match v {
        HeaderValue::Null => ValueModel::Null,
        HeaderValue::Bool(b) => ValueModel::Bool(b),
        HeaderValue::Number(n) => ValueModel::Number(n@),
        HeaderValue::Str(t) => ValueModel::Str(t@),
        HeaderValue::Sequence(items) => ValueModel::Sequence(
            Seq::new(
                items@.len(),
                |i: int|
                    if 0 <= i < items@.len() {
                        value_model(items@[i])
                    } else {
                        ValueModel::Null
                    },
            ),
        ),
        HeaderValue::Mapping(entries) => ValueModel::Mapping(
            Seq::new(
                entries@.len(),
                |i: int|
                    if 0 <= i < entries@.len() {
                        (value_model(entries@[i].0), value_model(entries@[i].1))
                    } else {
                        (ValueModel::Null, ValueModel::Null)
                    },
            ),
        ),
    }
}

impl View for HeaderValue {
    type V = ValueModel;

    open spec fn view(&self) -> ValueModel {
        value_model(*self)
    }
}

/// The value stored under the text key `key`, first match wins.
pub open spec fn map_get(entries: Seq<(ValueModel, ValueModel)>, key: Seq<char>) -> Option<
    ValueModel,
>
    decreases entries.len(),
{
    if entries.len() == 0 {
        None
    } else if entries[0].0 == ValueModel::Str(key) {
        Some(entries[0].1)
    } else {
        map_get(entries.drop_first(), key)
    }
}

impl ValueModel {
    /// The entry under a text key, when this value is a mapping.
    pub open spec fn lookup(self, key: Seq<char>) -> Option<ValueModel> {
        match self {
            ValueModel::Mapping(m) => map_get(m, key),
            _ => None,
        }
    }
}

/// The text held by an optional value, if it is a string.
pub open spec fn str_of(v: Option<ValueModel>) -> Option<Seq<char>> {
    match v {
        Some(ValueModel::Str(s)) => Some(s),
        _ => None,
    }
}

impl HeaderValue {
    /// A copy of this value with the same content.
    pub fn duplicate(&self) -> (r: HeaderValue)
        ensures
            r@ == self@,
        decreases self,
    {
        match self {
            HeaderValue::Null => HeaderValue::Null,
            HeaderValue::Bool(b) => HeaderValue::Bool(*b),
            HeaderValue::Number(n) => HeaderValue::Number(n.clone()),
            HeaderValue::Str(t) => HeaderValue::Str(t.clone()),
            HeaderValue::Sequence(items) => {
                let mut out: Vec<HeaderValue> = Vec::new();
                let mut i: usize = 0;
                while i < items.len()
                    invariant
                        i <= items@.len(),
                        *self == HeaderValue::Sequence(*items),
                        out@.len() == i,
                        forall|k: int| 0 <= k < i ==> out@[k]@ == items@[k]@,
                    decreases items@.len() - i,
                {
                    assert(decreases_to!(*self => self->Sequence_0));
                    let item = items[i].duplicate();
                    out.push(item);
                    i = i + 1;
                }
                let r = HeaderValue::Sequence(out);
                assert(r@ == self@) by {
                    if let ValueModel::Sequence(a) = r@ {
                        if let ValueModel::Sequence(b) = self@ {
                            assert(a =~= b);
                        }
                    }
                }
                r
            },
            HeaderValue::Mapping(entries) => {
                let mut out: Vec<(HeaderValue, HeaderValue)> = Vec::new();
                let mut i: usize = 0;
                while i < entries.len()
                    invariant
                        i <= entries@.len(),
                        *self == HeaderValue::Mapping(*entries),
                        out@.len() == i,
                        forall|k: int|
                            0 <= k < i ==> out@[k].0@ == entries@[k].0@ && out@[k].1@
                                == entries@[k].1@,
                    decreases entries@.len() - i,
                {
                    assert(decreases_to!(*self => self->Mapping_0));
                    let k = entries[i].0.duplicate();
                    let v = entries[i].1.duplicate();
                    out.push((k, v));
                    i = i + 1;
                }
                let r = HeaderValue::Mapping(out);
                assert(r@ == self@) by {
                    if let ValueModel::Mapping(a) = r@ {
                        if let ValueModel::Mapping(b) = self@ {
                            assert(a =~= b);
                        }
                    }
                }
                r
            },
        }
    }

    /// Looks up a text key in a mapping value.
    pub fn get(&self, key: &str) -> (r: Option<&HeaderValue>)
        ensures
            r is Some <==> self@.lookup(key@) is Some,
            r matches Some(v) ==> self@.lookup(key@) == Some(v@),
    {
        match self {
            HeaderValue::Mapping(m) => {
                let ghost entries = Seq::new(m@.len(), |j: int| (m@[j].0@, m@[j].1@));
                assert(self@.lookup(key@) == map_get(entries, key@)) by {
                    if let ValueModel::Mapping(a) = self@ {
                        assert(a =~= entries);
                    }
                }
                let mut i: usize = 0;
                assert(entries.skip(0) =~= entries);
                while i < m.len()
                    invariant
                        i <= m@.len(),
                        entries.len() == m@.len(),
                        forall|j: int| 0 <= j < m@.len() ==> #[trigger] entries[j] == (m@[j].0@, m@[j].1@),
                        self@.lookup(key@) == map_get(entries.skip(i as int), key@),
                    decreases m@.len() - i,
                {
                    assert(entries.skip(i as int).drop_first() =~= entries.skip(i + 1));
                    let e = &m[i];
                    assert(entries.skip(i as int)[0] == entries[i as int]);
                    match &e.0 {
                        HeaderValue::Str(s) => {
                            if crate::text::text_eq(s.as_str(), key) {
                                return Some(&e.1);
                            }
                        },
                        _ => {},
                    }
                    i = i + 1;
                }
                None
            },
            _ => None,
        }
    }
}

} // verus!
