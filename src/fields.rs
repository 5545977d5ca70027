use vstd::prelude::*;
use crate::record::{find_key, has_key, keys, lemma_lookup_has_key, names_of, FieldView, Record};

verus! {

/// Keys shown before all others.
pub open spec fn first_keys() -> Seq<Seq<char>> {
    seq!["time"@]
}

/// Keys shown after all others.
pub open spec fn last_keys() -> Seq<Seq<char>> {
    seq!["message"@]
}

/// Keys never shown.
pub open spec fn blacklist() -> Seq<Seq<char>> {
    seq!["level"@, "type"@, "lineno"@, "function"@, "env"@, "tag"@]
}

/// Keys shown between the first and the last group, in record order.
pub open spec fn is_middle(k: Seq<char>) -> bool {
    !blacklist().contains(k) && !first_keys().contains(k) && !last_keys().contains(k)
}

/// The names of `names` that are keys of the record, in the order of `names`.
pub open spec fn present(names: Seq<Seq<char>>, fields: Seq<FieldView>) -> Seq<Seq<char>> {
    names.filter(|n: Seq<char>| has_key(fields, n))
}

/// The order in which a record's keys are displayed: the first group, then the
/// record's other keys that are neither blacklisted nor first or last, then the
/// last group.
pub open spec fn field_order(fields: Seq<FieldView>) -> Seq<Seq<char>> {
    present(first_keys(), fields) + keys(fields).filter(|k: Seq<char>| is_middle(k)) + present(
        last_keys(),
        fields,
    )
}

fn contains_name(names: &Vec<String>, k: &String) -> (r: bool)
    ensures
        r == names_of(names@).contains(k@),
{
    let mut i: usize = 0;
    while i < names.len()
        invariant
            i <= names@.len(),
            forall|j: int| 0 <= j < i ==> names_of(names@)[j] != k@,
        decreases names.len() - i,
    {
        if names[i] == *k {
            assert(names_of(names@)[i as int] == k@);
            return true;
        }
        i = i + 1;
    }
    false
}

/// Appends to `out` the names of `names` that are keys of the record.
fn push_present(out: &mut Vec<String>, names: &Vec<String>, record: &Record)
    ensures
        names_of(final(out)@) == names_of(old(out)@) + present(names_of(names@), record@),
{
    let ghost start = names_of(out@);
    let ghost all = names_of(names@);
    let ghost p = |n: Seq<char>| has_key(record@, n);
    let mut i: usize = 0;
    assert(all.take(0).filter(p) =~= Seq::<Seq<char>>::empty()) by {
        reveal(Seq::filter);
    }
    assert(names_of(out@) =~= start + all.take(0).filter(p));
    while i < names.len()
        invariant
            i <= names@.len(),
            all == names_of(names@),
            p == (|n: Seq<char>| has_key(record@, n)),
            names_of(out@) == start + all.take(i as int).filter(p),
        decreases names.len() - i,
    {
        assert(all.take(i as int + 1).drop_last() =~= all.take(i as int));
        assert(all.take(i as int + 1).last() == names[i as int]@);
        assert(all.take(i as int + 1).filter(p) == if p(names[i as int]@) {
            all.take(i as int).filter(p).push(names[i as int]@)
        } else {
            all.take(i as int).filter(p)
        }) by {
            reveal(Seq::filter);
        }
        assert(start + all.take(i as int).filter(p).push(names[i as int]@) =~= (start + all.take(
            i as int,
        ).filter(p)).push(names[i as int]@));
        let found = find_key(record, &names[i]);
        proof {
            lemma_lookup_has_key(record@, names[i as int]@);
        }
        if found.is_some() {
            let ghost before = out@;
            out.push(names[i].clone());
            assert(names_of(out@) =~= names_of(before).push(names[i as int]@));
        }
        i = i + 1;
    }
    assert(all.take(all.len() as int) =~= all);
}

fn names(words: Vec<&str>) -> (r: Vec<String>)
    ensures
        names_of(r@) == words@.map_values(|w: &str| w@),
{
    let mut r: Vec<String> = Vec::new();
    let mut i: usize = 0;
    while i < words.len()
        invariant
            i <= words@.len(),
            names_of(r@) =~= words@.take(i as int).map_values(|w: &str| w@),
        decreases words.len() - i,
    {
        let ghost before = r@;
        r.push(words[i].to_owned());
        assert(words@.take(i as int + 1) =~= words@.take(i as int).push(words[i as int]));
        assert(names_of(r@) =~= names_of(before).push(words[i as int]@));
        i = i + 1;
    }
    assert(words@.take(words@.len() as int) =~= words@);
    r
}

/// Computes the display order of a record's keys.
pub fn get_fields(record: &Record) -> (r: Vec<String>)
    ensures
        names_of(r@) == field_order(record@),
{
    let first = names(vec!["time"]);
    let last = names(vec!["message"]);
    let black = names(vec!["level", "type", "lineno", "function", "env", "tag"]);
    assert(names_of(first@) =~= first_keys());
    assert(names_of(last@) =~= last_keys());
    assert(names_of(black@) =~= blacklist());
    let mut out: Vec<String> = Vec::new();
    assert(names_of(out@) =~= Seq::<Seq<char>>::empty());
    push_present(&mut out, &first, record);
    let ghost head = names_of(out@);
    let ghost ks = keys(record@);
    let ghost p = |k: Seq<char>| is_middle(k);
    assert(ks.take(0).filter(p) =~= Seq::<Seq<char>>::empty()) by {
        reveal(Seq::filter);
    }
    assert(head =~= head + ks.take(0).filter(p));
    let n = record.fields.len();
    let mut i: usize = 0;
    while i < n
        invariant
            n == record@.len(),
            i <= n,
            ks == keys(record@),
            p == (|k: Seq<char>| is_middle(k)),
            names_of(first@) == first_keys(),
            names_of(last@) == last_keys(),
            names_of(black@) == blacklist(),
            names_of(out@) == head + ks.take(i as int).filter(p),
        decreases n - i,
    {
        let key = &record.fields[i].key;
        assert(ks.take(i as int + 1).drop_last() =~= ks.take(i as int));
        assert(ks.take(i as int + 1).last() == key@);
        assert(ks.take(i as int + 1).filter(p) == if p(key@) {
            ks.take(i as int).filter(p).push(key@)
        } else {
            ks.take(i as int).filter(p)
        }) by {
            reveal(Seq::filter);
        }
        assert(head + ks.take(i as int).filter(p).push(key@) =~= (head + ks.take(i as int).filter(
            p,
        )).push(key@));
        if !contains_name(&black, key) && !contains_name(&first, key) && !contains_name(&last, key) {
            let ghost before = out@;
            out.push(key.clone());
            assert(names_of(out@) =~= names_of(before).push(key@));
        }
        i = i + 1;
    }
    assert(ks.take(n as int) =~= ks);
    push_present(&mut out, &last, record);
    out
}

proof fn lemma_filter_single(x: Seq<char>, p: spec_fn(Seq<char>) -> bool)
    ensures
        seq![x].filter(p) == (if p(x) {
            seq![x]
        } else {
            Seq::<Seq<char>>::empty()
        }),
{
    reveal_with_fuel(Seq::filter, 2);
    assert(seq![x].drop_last() =~= Seq::<Seq<char>>::empty());
    assert(Seq::<Seq<char>>::empty().push(x) =~= seq![x]);
}

proof fn lemma_filter_no_duplicates(s: Seq<Seq<char>>, p: spec_fn(Seq<char>) -> bool)
    requires
        s.no_duplicates(),
    ensures
        s.filter(p).no_duplicates(),
    decreases s.len(),
{
    reveal(Seq::filter);
    if s.len() > 0 {
        let rest = s.drop_last();
        lemma_filter_no_duplicates(rest, p);
        if p(s.last()) {
            if rest.filter(p).contains(s.last()) {
                rest.lemma_filter_contains_rev(p, s.last());
                let j = choose|j: int| 0 <= j < rest.len() && rest[j] == s.last();
                assert(s[j] == s[s.len() - 1]);
            }
            assert forall|i: int, j: int|
                0 <= i < s.filter(p).len() && 0 <= j < s.filter(p).len() && i != j implies s.filter(
                p,
            )[i] != s.filter(p)[j] by {
                if j == s.filter(p).len() - 1 {
                    assert(rest.filter(p)[i] == s.filter(p)[i]);
                } else if i == s.filter(p).len() - 1 {
                    assert(rest.filter(p)[j] == s.filter(p)[j]);
                }
            }
        }
    }
}

proof fn lemma_names_distinct()
    ensures
        !blacklist().contains("time"@),
        !blacklist().contains("message"@),
        "time"@ != "message"@,
        is_middle("time"@) == false,
        is_middle("message"@) == false,
{
    reveal_strlit("time");
    reveal_strlit("message");
    reveal_strlit("level");
    reveal_strlit("type");
    reveal_strlit("lineno");
    reveal_strlit("function");
    reveal_strlit("env");
    reveal_strlit("tag");
    assert("time"@[2] != "message"@[2]);
    assert("time"@[2] != "type"@[2]);
    assert(first_keys()[0] == "time"@);
    assert(last_keys()[0] == "message"@);
    assert forall|i: int| 0 <= i < blacklist().len() implies blacklist()[i] != "time"@
        && blacklist()[i] != "message"@ by {
        if i == 1 {
            assert(blacklist()[i][2] != "time"@[2]);
        }
    }
}

/// The first group is `time` when the record has that key, and nothing
/// otherwise; the last group is `message` likewise.
proof fn lemma_groups(fields: Seq<FieldView>)
    ensures
        present(first_keys(), fields) == (if has_key(fields, "time"@) {
            seq!["time"@]
        } else {
            Seq::<Seq<char>>::empty()
        }),
        present(last_keys(), fields) == (if has_key(fields, "message"@) {
            seq!["message"@]
        } else {
            Seq::<Seq<char>>::empty()
        }),
{
    lemma_filter_single("time"@, |n: Seq<char>| has_key(fields, n));
    lemma_filter_single("message"@, |n: Seq<char>| has_key(fields, n));
}

/// Every key of a record that is not blacklisted is displayed, exactly once;
/// no other name is displayed.
pub proof fn lemma_field_completeness(fields: Seq<FieldView>)
    requires
        keys(fields).no_duplicates(),
    ensures
        forall|k: Seq<char>|
            #[trigger] field_order(fields).contains(k) <==> (has_key(fields, k) && !blacklist().contains(k)),
        field_order(fields).no_duplicates(),
{
    broadcast use vstd::seq_lib::group_filter_ensures;

    lemma_names_distinct();
    lemma_groups(fields);
    let p = |k: Seq<char>| is_middle(k);
    let a = present(first_keys(), fields);
    let b = keys(fields).filter(p);
    let c = present(last_keys(), fields);
    assert forall|k: Seq<char>| #[trigger]
        field_order(fields).contains(k) <==> (has_key(fields, k) && !blacklist().contains(k)) by {
        if field_order(fields).contains(k) {
            let i = choose|i: int| 0 <= i < field_order(fields).len() && field_order(fields)[i] == k;
            if i >= a.len() && i < a.len() + b.len() {
                assert(b[i - a.len()] == k);
                keys(fields).lemma_filter_contains_rev(p, k);
            }
        }
        if has_key(fields, k) && !blacklist().contains(k) {
            if k == "time"@ {
                assert(field_order(fields)[0] == k);
            } else if k == "message"@ {
                assert(field_order(fields)[(a.len() + b.len()) as int] == k);
            } else {
                let j = choose|j: int| 0 <= j < keys(fields).len() && keys(fields)[j] == k;
                assert(first_keys().contains(k) ==> first_keys()[0] == k);
                assert(last_keys().contains(k) ==> last_keys()[0] == k);
                assert(p(keys(fields)[j]));
                assert(b.contains(k));
                let i = choose|i: int| 0 <= i < b.len() && b[i] == k;
                assert(field_order(fields)[a.len() + i] == k);
            }
        }
    }
    lemma_filter_no_duplicates(keys(fields), p);
    assert forall|i: int, j: int| 0 <= i < a.len() && 0 <= j < b.len() implies a[i] != b[j] by {
        assert(p(b[j]));
    }
    vstd::seq_lib::lemma_no_dup_in_concat(a, b);
    assert forall|i: int, j: int| 0 <= i < (a + b).len() && 0 <= j < c.len() implies (a + b)[i]
        != c[j] by {
        if i >= a.len() {
            assert(p(b[i - a.len()]));
        }
    }
    vstd::seq_lib::lemma_no_dup_in_concat(a + b, c);
}

/// `time`, when present, is displayed first and `message`, when present, last;
/// neither appears anywhere else.
pub proof fn lemma_ordering(fields: Seq<FieldView>)
    ensures
        has_key(fields, "time"@) ==> field_order(fields)[0] == "time"@,
        has_key(fields, "message"@) ==> field_order(fields).last() == "message"@,
        forall|i: int|
            0 <= i < field_order(fields).len() && #[trigger] field_order(fields)[i] == "time"@ ==> i == 0,
        forall|i: int|
            0 <= i < field_order(fields).len() && #[trigger] field_order(fields)[i] == "message"@ ==> i
                == field_order(fields).len() - 1,
{
    broadcast use vstd::seq_lib::group_filter_ensures;

    lemma_names_distinct();
    lemma_groups(fields);
    let p = |k: Seq<char>| is_middle(k);
    let a = present(first_keys(), fields);
    let b = keys(fields).filter(p);
    let c = present(last_keys(), fields);
    assert forall|i: int| 0 <= i < field_order(fields).len() && a.len() <= i < a.len() + b.len()
        implies #[trigger] field_order(fields)[i] != "time"@ && field_order(fields)[i] != "message"@ by {
        assert(p(b[i - a.len()]));
    }
}

} // verus!
