use vstd::prelude::*;
use crate::colors::{level_colors, Color};
use crate::record::{find_key, lookup, FieldValue, FieldView, Record};

verus! {

/// The keys that may carry a record's severity, highest priority first.
pub open spec fn level_aliases() -> Seq<Seq<char>> {
    seq!["level"@, "lvl"@, "lev"@, "l"@, "type"@]
}

/// The severity found by scanning `aliases` in order: the first alias that is a
/// key decides, giving its text if the value is a JSON string and no severity
/// otherwise.
pub open spec fn level_among(fields: Seq<FieldView>, aliases: Seq<Seq<char>>) -> Option<Seq<char>>
    decreases aliases.len(),
{
    if aliases.len() == 0 {
        None
    } else {
        match lookup(fields, aliases[0]) {
            Some((is_str, text)) => if is_str {
                Some(text)
            } else {
                None
            },
            None => level_among(fields, aliases.drop_first()),
        }
    }
}

/// The severity of a record.
pub open spec fn level_of(fields: Seq<FieldView>) -> Option<Seq<char>> {
    level_among(fields, level_aliases())
}

pub open spec fn opt_string_view(o: Option<String>) -> Option<Seq<char>> {
    match o {
        Some(s) => Some(s@),
        None => None,
    }
}

/// Detects the severity of a record, as it is written (no case folding).
pub fn get_level(record: &Record) -> (r: Option<String>)
    ensures
        opt_string_view(r) == level_of(record@),
{
    let aliases: Vec<String> = vec![
        "level".to_owned(),
        "lvl".to_owned(),
        "lev".to_owned(),
        "l".to_owned(),
        "type".to_owned(),
    ];
    let ghost all = aliases@.map_values(|s: String| s@);
    assert(all =~= level_aliases());
    assert(all.subrange(0, all.len() as int) =~= all);
    let mut i: usize = 0;
    while i < aliases.len()
        invariant
            i <= aliases@.len(),
            all == aliases@.map_values(|s: String| s@),
            level_of(record@) == level_among(record@, all.subrange(i as int, all.len() as int)),
        decreases aliases.len() - i,
    {
        assert(all.subrange(i as int, all.len() as int).drop_first() =~= all.subrange(
            i as int + 1,
            all.len() as int,
        ));
        match find_key(record, &aliases[i]) {
            Some(j) => {
                return match &record.fields[j].value {
                    FieldValue::Str(s) => Some(s.clone()),
                    FieldValue::Json(_) => None,
                };
            },
            None => {},
        }
        i = i + 1;
    }
    None
}

/// The first alias present decides: a record without a `level` key whose `lvl`
/// field holds the string `s` has severity `s`, whatever the lower-priority
/// aliases (such as `type`) hold.
pub proof fn lemma_alias_priority(fields: Seq<FieldView>, s: Seq<char>)
    requires
        lookup(fields, "level"@) is None,
        lookup(fields, "lvl"@) == Some((true, s)),
    ensures
        level_of(fields) == Some(s),
{
    reveal_with_fuel(level_among, 3);
    let a = level_aliases();
    assert(a[0] == "level"@);
    assert(a.drop_first()[0] == "lvl"@);
}

/// A severity key whose value is not a JSON string gives no severity, and so
/// the default colours: the scan does not go on to the remaining aliases.
pub proof fn lemma_non_string_severity(fields: Seq<FieldView>, i: int, text: Seq<char>)
    requires
        0 <= i < level_aliases().len(),
        forall|j: int| 0 <= j < i ==> lookup(fields, #[trigger] level_aliases()[j]) is None,
        lookup(fields, level_aliases()[i]) == Some((false, text)),
    ensures
        level_of(fields) is None,
        level_colors(level_of(fields)) == (Color::Default, Color::Default),
{
    lemma_non_string_among(fields, level_aliases(), i, text);
}

proof fn lemma_non_string_among(fields: Seq<FieldView>, a: Seq<Seq<char>>, i: int, text: Seq<char>)
    requires
        0 <= i < a.len(),
        forall|j: int| 0 <= j < i ==> lookup(fields, #[trigger] a[j]) is None,
        lookup(fields, a[i]) == Some((false, text)),
    ensures
        level_among(fields, a) is None,
    decreases i,
{
    if i > 0 {
        assert(lookup(fields, a[0]) is None);
        assert forall|j: int| 0 <= j < i - 1 implies lookup(fields, #[trigger] a.drop_first()[j]) is None by {
            assert(a.drop_first()[j] == a[j + 1]);
        }
        lemma_non_string_among(fields, a.drop_first(), i - 1, text);
    }
}

} // verus!
