use vstd::prelude::*;
use crate::colors::{get_colors, level_colors, Color};
use crate::fields::{
    blacklist, field_order, first_keys, get_fields, is_middle, last_keys, lemma_field_completeness,
    present,
};
use crate::json::{json_object_fields, parse_object};
use crate::level::{get_level, level_of};
use crate::record::{find_key, has_key, keys, lemma_lookup_has_key, lookup, names_of, FieldValue, FieldView, Record};

verus! {

/// One displayed line: a key and the text of its value.
pub struct RenderedField {
    pub key: String,
    pub value: String,
}

/// What is displayed for one input line, before the blank separator line.
pub enum Rendering {
    /// The line itself, uncoloured: it was not a JSON object.
    Raw(String),
    /// One `key: value` line per field; keys and the `": "` separator in
    /// `key_color`, values in `value_color`.
    Record { key_color: Color, value_color: Color, fields: Vec<RenderedField> },
}

pub enum RenderingView {
    Raw(Seq<char>),
    Record { key_color: Color, value_color: Color, fields: Seq<(Seq<char>, Seq<char>)> },
}

impl View for RenderedField {
    type V = (Seq<char>, Seq<char>);

    open spec fn view(&self) -> (Seq<char>, Seq<char>) {
        (self.key@, self.value@)
    }
}

impl View for Rendering {
    type V = RenderingView;

    open spec fn view(&self) -> RenderingView {
        match self {
            Rendering::Raw(s) => RenderingView::Raw(s@),
            Rendering::Record { key_color, value_color, fields } => RenderingView::Record {
                key_color: *key_color,
                value_color: *value_color,
                fields: fields@.map_values(|f: RenderedField| f@),
            },
        }
    }
}

/// The displayed fields of a record: each key of the display order with the
/// text of its value.
pub open spec fn rendered_fields(fields: Seq<FieldView>) -> Seq<(Seq<char>, Seq<char>)> {
    field_order(fields).map_values(|k: Seq<char>| (k, lookup(fields, k).unwrap().1))
}

/// The keys of the displayed fields, in display order.
pub open spec fn rendered_keys(fields: Seq<FieldView>) -> Seq<Seq<char>> {
    rendered_fields(fields).map_values(|f: (Seq<char>, Seq<char>)| f.0)
}

/// What is displayed for `line`, given what it decoded to.
pub open spec fn expected_rendering(line: Seq<char>, parsed: Option<Seq<FieldView>>) -> RenderingView {
    match parsed {
        None => RenderingView::Raw(line),
        Some(fields) => RenderingView::Record {
            key_color: level_colors(level_of(fields)).0,
            value_color: level_colors(level_of(fields)).1,
            fields: rendered_fields(fields),
        },
    }
}

pub open spec fn opt_record_view(parsed: Option<Record>) -> Option<Seq<FieldView>> {
    match parsed {
        Some(r) => Some(r@),
        None => None,
    }
}

/// Every name of the display order is a key of the record.
proof fn lemma_order_has_keys(fields: Seq<FieldView>)
    ensures
        forall|i: int| 0 <= i < field_order(fields).len() ==> has_key(fields, #[trigger] field_order(fields)[i]),
{
    broadcast use vstd::seq_lib::group_filter_ensures;

    let p = |k: Seq<char>| is_middle(k);
    let q = |n: Seq<char>| has_key(fields, n);
    let a = present(first_keys(), fields);
    let b = keys(fields).filter(p);
    let c = present(last_keys(), fields);
    assert forall|i: int| 0 <= i < field_order(fields).len() implies has_key(fields, #[trigger] field_order(fields)[i]) by {
        if i < a.len() {
            assert(q(a[i]));
        } else if i < a.len() + b.len() {
            assert(b.contains(b[i - a.len()]));
            keys(fields).lemma_filter_contains_rev(p, b[i - a.len()]);
        } else {
            assert(q(c[i - a.len() - b.len()]));
        }
    }
}

/// Renders a line from what it decoded to: the line itself when it is not a
/// JSON object, else the record's fields in display order, coloured after its
/// severity.
pub fn display_parsed(line: &str, parsed: Option<Record>) -> (r: Rendering)
    ensures
        r@ == expected_rendering(line@, opt_record_view(parsed)),
{
    match parsed {
        None => Rendering::Raw(line.to_owned()),
        Some(record) => {
            let level = get_level(&record);
            let (key_color, value_color) = get_colors(level);
            let names = get_fields(&record);
            let ghost expected = rendered_fields(record@);
            proof {
                lemma_order_has_keys(record@);
            }
            let mut out: Vec<RenderedField> = Vec::new();
            let mut i: usize = 0;
            while i < names.len()
                invariant
                    i <= names@.len(),
                    names_of(names@) == field_order(record@),
                    expected == rendered_fields(record@),
                    forall|k: int| 0 <= k < field_order(record@).len() ==> has_key(record@, #[trigger] field_order(record@)[k]),
                    out@.map_values(|f: RenderedField| f@) == expected.take(i as int),
                decreases names.len() - i,
            {
                let key = &names[i];
                assert(key@ == field_order(record@)[i as int]);
                proof {
                    lemma_lookup_has_key(record@, key@);
                }
                match find_key(&record, key) {
                    Some(j) => {
                        let value = match &record.fields[j].value {
                            FieldValue::Str(s) => s.clone(),
                            FieldValue::Json(s) => s.clone(),
                        };
                        let ghost before = out@;
                        out.push(RenderedField { key: key.clone(), value });
                        assert(expected.take(i as int + 1) =~= expected.take(i as int).push(expected[i as int]));
                        assert(out@.map_values(|f: RenderedField| f@) =~= before.map_values(|f: RenderedField| f@).push(expected[i as int]));
                    },
                    None => {},
                }
                i = i + 1;
            }
            assert(expected.take(expected.len() as int) =~= expected);
            Rendering::Record { key_color, value_color, fields: out }
        },
    }
}

/// Renders one (trimmed) input line.
pub fn display(line: &str) -> (r: Rendering)
    ensures
        r@ == expected_rendering(line@, json_object_fields(line@)),
{
    let parsed = parse_object(line);
    display_parsed(line, parsed)
}

/// A line that does not decode to a JSON object is displayed as it is.
pub proof fn lemma_passthrough(line: Seq<char>)
    requires
        json_object_fields(line) is None,
    ensures
        expected_rendering(line, json_object_fields(line)) == RenderingView::Raw(line),
{
}

/// The keys displayed for a record are its keys less the blacklisted ones, each
/// once.
pub proof fn lemma_rendered_completeness(fields: Seq<FieldView>)
    requires
        keys(fields).no_duplicates(),
    ensures
        forall|k: Seq<char>|
            #[trigger] rendered_keys(fields).contains(k)
                <==> (has_key(fields, k) && !blacklist().contains(k)),
        rendered_keys(fields).no_duplicates(),
{
    lemma_field_completeness(fields);
    assert(rendered_keys(fields) =~= field_order(fields));
}

} // verus!
