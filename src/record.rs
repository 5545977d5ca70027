use vstd::prelude::*;

verus! {

/// A JSON value as the formatter sees it: either a JSON string, kept as its
/// raw text, or any other value, kept as its compact JSON text.
pub enum FieldValue {
    Str(String),
    Json(String),
}

/// One `key: value` pair of a decoded line.
pub struct Field {
    pub key: String,
    pub value: FieldValue,
}

/// One decoded line: a flat JSON object, its fields in the order the decoder
/// produced them.
pub struct Record {
    pub fields: Vec<Field>,
}

/// A field as a mathematical value: its key, whether its value is a JSON
/// string, and the text the value is displayed as.
pub type FieldView = (Seq<char>, bool, Seq<char>);

impl FieldValue {
    pub open spec fn is_str(&self) -> bool {
        self is Str
    }

    pub open spec fn text(&self) -> Seq<char> {
        match self {
            FieldValue::Str(s) => s@,
            FieldValue::Json(s) => s@,
        }
    }
}

impl View for Field {
    type V = FieldView;

    open spec fn view(&self) -> FieldView {
        (self.key@, self.value.is_str(), self.value.text())
    }
}

impl View for Record {
    type V = Seq<FieldView>;

    open spec fn view(&self) -> Seq<FieldView> {
        self.fields@.map_values(|f: Field| f@)
    }
}

/// The texts of a list of strings.
pub open spec fn names_of(v: Seq<String>) -> Seq<Seq<char>> {
    v.map_values(|s: String| s@)
}

/// The keys of a record, in field order.
pub open spec fn keys(fields: Seq<FieldView>) -> Seq<Seq<char>> {
    fields.map_values(|f: FieldView| f.0)
}

pub open spec fn has_key(fields: Seq<FieldView>, k: Seq<char>) -> bool {
    keys(fields).contains(k)
}

/// The value (string flag and text) stored under `k`: the first field with
/// that key, if any.
pub open spec fn lookup(fields: Seq<FieldView>, k: Seq<char>) -> Option<(bool, Seq<char>)>
    decreases fields.len(),
{
    if fields.len() == 0 {
        None
    } else if fields[0].0 == k {
        Some((fields[0].1, fields[0].2))
    } else {
        lookup(fields.drop_first(), k)
    }
}

pub proof fn lemma_lookup_has_key(fields: Seq<FieldView>, k: Seq<char>)
    ensures
        lookup(fields, k) is Some <==> has_key(fields, k),
    decreases fields.len(),
{
    if fields.len() > 0 {
        lemma_lookup_has_key(fields.drop_first(), k);
        assert(keys(fields.drop_first()) =~= keys(fields).drop_first());
        if fields[0].0 == k {
            assert(keys(fields)[0] == k);
        }
        if has_key(fields, k) && fields[0].0 != k {
            let j = choose|j: int| 0 <= j < keys(fields).len() && keys(fields)[j] == k;
            assert(keys(fields.drop_first())[j - 1] == k);
        }
        if has_key(fields.drop_first(), k) {
            let j = choose|j: int| 0 <= j < keys(fields.drop_first()).len() && keys(fields.drop_first())[j] == k;
            assert(keys(fields)[j + 1] == k);
        }
    }
}

impl Record {
    pub fn new() -> (r: Record)
        ensures
            r@ == Seq::<FieldView>::empty(),
    {
        let r = Record { fields: Vec::new() };
        assert(r@ =~= Seq::<FieldView>::empty());
        r
    }

    /// Appends a field at the end of the record.
    pub fn push(&mut self, key: String, value: FieldValue)
        ensures
            final(self)@ == old(self)@.push((key@, value.is_str(), value.text())),
    {
        self.fields.push(Field { key, value });
        assert(final(self)@ =~= old(self)@.push((key@, value.is_str(), value.text())));
    }
}

/// Finds the first field whose key is `key`.
pub fn find_key(record: &Record, key: &String) -> (r: Option<usize>)
    ensures
        match r {
            Some(i) => i < record@.len() && record@[i as int].0 == key@ && lookup(record@, key@)
                == Some((record@[i as int].1, record@[i as int].2)),
            None => lookup(record@, key@) is None,
        },
{
    let n = record.fields.len();
    let mut i: usize = 0;
    assert(record@.subrange(0, n as int) =~= record@);
    while i < n
        invariant
            n == record.fields@.len(),
            i <= n,
            lookup(record@, key@) == lookup(record@.subrange(i as int, n as int), key@),
        decreases n - i,
    {
        assert(record@.subrange(i as int, n as int).drop_first() =~= record@.subrange(
            i as int + 1,
            n as int,
        ));
        if record.fields[i].key == *key {
            return Some(i);
        }
        i = i + 1;
    }
    None
}

} // verus!
