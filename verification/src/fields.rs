//! The fields found in one message: a map from field name to value, and the
//! extraction that fills it from a message body.

use crate::text::{
    from_chars, lines_of, split_lines, starts_with, strings, texts, to_chars, trim, trimmed,
};
use vstd::prelude::*;

verus! {

/// Whether no two of `keys` hold the same text.
spec fn distinct(keys: Seq<String>) -> bool {
    forall|i: int, j: int| 0 <= i < j < keys.len() ==> keys[i]@ != keys[j]@
}

/// The map that gives each of `keys` the value at its position in `values`.
spec fn table(keys: Seq<String>, values: Seq<String>) -> Map<Seq<char>, Seq<char>> {
    Map::new(
        |k: Seq<char>| exists|i: int| 0 <= i < keys.len() && keys[i]@ == k,
        |k: Seq<char>| values[choose|i: int| 0 <= i < keys.len() && keys[i]@ == k]@,
    )
}

/// Each key of a table is bound to the value at its own position.
proof fn lemma_table_entries(keys: Seq<String>, values: Seq<String>)
    requires
        distinct(keys),
        keys.len() == values.len(),
    ensures
        forall|i: int|
            0 <= i < keys.len() ==> table(keys, values).contains_key(#[trigger] keys[i]@) && table(
                keys,
                values,
            )[keys[i]@] == values[i]@,
{
    assert forall|i: int| 0 <= i < keys.len() implies table(keys, values).contains_key(
        #[trigger] keys[i]@,
    ) && table(keys, values)[keys[i]@] == values[i]@ by {
        let k = keys[i]@;
        let j = choose|j: int| 0 <= j < keys.len() && keys[j]@ == k;
        assert(j == i);
    }
}

/// The values found for the fields of one message, by field name. A field
/// that was not found has no entry; a field found with nothing behind its
/// prefix has an empty value.
pub struct FieldMap {
    keys: Vec<String>,
    values: Vec<String>,
}

impl FieldMap {
    #[verifier::type_invariant]
    spec fn well_formed(&self) -> bool {
        &&& self.keys.len() == self.values.len()
        &&& distinct(self.keys@)
    }

    /// The map this value stands for.
    pub closed spec fn view(&self) -> Map<Seq<char>, Seq<char>> {
        table(self.keys@, self.values@)
    }

    /// A map without entries.
    pub fn new() -> (m: FieldMap)
        ensures
            m@ == Map::<Seq<char>, Seq<char>>::empty(),
    {
        let m = FieldMap { keys: Vec::new(), values: Vec::new() };
        assert(m@ =~= Map::<Seq<char>, Seq<char>>::empty());
        m
    }

    /// The position of `key` among the keys, if it is there.
    fn find(&self, key: &String) -> (at: Option<usize>)
        ensures
            match at {
                Some(i) => i < self.keys.len() && self.keys[i as int]@ == key@,
                None => forall|i: int| 0 <= i < self.keys.len() ==> self.keys[i]@ != key@,
            },
    {
        let mut i: usize = 0;
        while i < self.keys.len()
            invariant
                i <= self.keys.len(),
                forall|j: int| 0 <= j < i ==> self.keys[j]@ != key@,
            decreases self.keys.len() - i,
        {
            if self.keys[i] == *key {
                return Some(i);
            }
            i += 1;
        }
        None
    }

    /// The value of `key`, where it has one.
    pub fn get(&self, key: &String) -> (value: Option<&String>)
        ensures
            match value {
                Some(v) => self@.contains_key(key@) && self@[key@] == v@,
                None => !self@.contains_key(key@),
            },
    {
        proof {
            use_type_invariant(self);
        }
        match self.find(key) {
            Some(i) => {
                proof {
                    lemma_table_entries(self.keys@, self.values@);
                }
                Some(&self.values[i])
            },
            None => None,
        }
    }

    /// Whether `key` has a value.
    pub fn contains_key(&self, key: &String) -> (b: bool)
        ensures
            b == self@.contains_key(key@),
    {
        self.find(key).is_some()
    }

    /// Gives `key` the value `value`, in place of the one it had, if any.
    pub fn insert(&mut self, key: String, value: String)
        ensures
            final(self)@ == old(self)@.insert(key@, value@),
    {
        proof {
            use_type_invariant(&*self);
        }
        let at = self.find(&key);
        let mut taken = FieldMap::new();
        std::mem::swap(self, &mut taken);
        let FieldMap { mut keys, mut values } = taken;
        match at {
            Some(i) => {
                values.set(i, value);
            },
            None => {
                keys.push(key);
                values.push(value);
            },
        }
        proof {
            lemma_table_entries(old(self).keys@, old(self).values@);
            lemma_table_entries(keys@, values@);
            let goal = old(self)@.insert(key@, value@);
            assert forall|k: Seq<char>| #[trigger]
                table(keys@, values@).contains_key(k) implies goal.contains_key(k) by {
                let i = choose|i: int| 0 <= i < keys.len() && keys[i]@ == k;
                if i < old(self).keys.len() {
                    assert(old(self).keys@[i]@ == k);
                }
            }
            assert forall|k: Seq<char>| #[trigger] goal.contains_key(k) implies table(
                keys@,
                values@,
            ).contains_key(k) && table(keys@, values@)[k] == goal[k] by {
                if k == key@ {
                    match at {
                        Some(i) => {
                            assert(keys@[i as int]@ == k);
                        },
                        None => {
                            assert(keys@[keys.len() - 1]@ == k);
                        },
                    }
                } else {
                    let i = choose|i: int|
                        0 <= i < old(self).keys.len() && old(self).keys@[i]@ == k;
                    assert(keys@[i]@ == k);
                    assert(old(self).keys@[i]@ == k);
                }
            }
            assert(table(keys@, values@) =~= goal);
        }
        *self = FieldMap { keys, values };
    }

    /// Removes every entry.
    pub fn clear(&mut self)
        ensures
            final(self)@ == Map::<Seq<char>, Seq<char>>::empty(),
    {
        *self = FieldMap::new();
        assert(self@ =~= Map::<Seq<char>, Seq<char>>::empty());
    }
}

/// The text that opens a line of the field `name`: the name, a colon and one
/// space.
pub open spec fn field_prefix(name: Seq<char>) -> Seq<char> {
    name + seq![':', ' ']
}

/// Whether `line` is a line of the field `name`.
pub open spec fn line_matches(line: Seq<char>, name: Seq<char>) -> bool {
    field_prefix(name).is_prefix_of(line)
}

/// The value that a line of the field `name` gives it: what follows the
/// prefix, without the white space at either end.
pub open spec fn line_value(line: Seq<char>, name: Seq<char>) -> Seq<char> {
    trim(line.skip(name.len() as int + 2))
}

/// The value of the field `name` in `lines`: that of the last line of the
/// field, if there is one.
pub open spec fn field_value(lines: Seq<Seq<char>>, name: Seq<char>) -> Option<Seq<char>>
    decreases lines.len(),
{
    if lines.len() == 0 {
        None
    } else if line_matches(lines.last(), name) {
        Some(line_value(lines.last(), name))
    } else {
        field_value(lines.drop_last(), name)
    }
}

/// The fields found in `lines`: each of `names` that has a line, with its
/// value.
pub open spec fn extracted(lines: Seq<Seq<char>>, names: Seq<Seq<char>>) -> Map<
    Seq<char>,
    Seq<char>,
> {
    Map::new(
        |k: Seq<char>| names.contains(k) && field_value(lines, k) is Some,
        |k: Seq<char>| field_value(lines, k).unwrap(),
    )
}

/// The fields found so far while the line after `before` is being read: the
/// first `done` names have seen `line`, the others have not.
spec fn extracted_upto(
    before: Seq<Seq<char>>,
    line: Seq<char>,
    names: Seq<Seq<char>>,
    done: int,
) -> Map<Seq<char>, Seq<char>> {
    Map::new(
        |k: Seq<char>|
            names.contains(k) && (if names.take(done).contains(k) {
                field_value(before.push(line), k)
            } else {
                field_value(before, k)
            }) is Some,
        |k: Seq<char>|
            (if names.take(done).contains(k) {
                field_value(before.push(line), k)
            } else {
                field_value(before, k)
            }).unwrap(),
    )
}

/// Reads one line for every field name, adding to `found` the value of each
/// field that the line belongs to.
fn extract_line(
    found: &mut FieldMap,
    line: &Vec<char>,
    fields: &Vec<String>,
    Ghost(before): Ghost<Seq<Seq<char>>>,
)
    requires
        old(found)@ == extracted(before, strings(fields@)),
    ensures
        final(found)@ == extracted(before.push(line@), strings(fields@)),
{
    let ghost names = strings(fields@);
    let mut tail: Vec<char> = Vec::new();
    tail.push(':');
    tail.push(' ');
    assert(tail@ =~= seq![':', ' ']);
    assert(found@ =~= extracted_upto(before, line@, names, 0)) by {
        assert(names.take(0) =~= Seq::<Seq<char>>::empty());
    }
    let mut j: usize = 0;
    while j < fields.len()
        invariant
            j <= fields.len(),
            names == strings(fields@),
            tail@ == seq![':', ' '],
            found@ == extracted_upto(before, line@, names, j as int),
        decreases fields.len() - j,
    {
        let name = to_chars(fields[j].as_str());
        let ghost prior = found@;
        proof {
            assert(names[j as int] == name@);
            assert(names.take(j + 1) =~= names.take(j as int).push(name@));
            assert(before.push(line@).last() == line@);
            assert(before.push(line@).drop_last() =~= before);
            let short = names.take(j as int);
            let long = names.take(j + 1);
            assert forall|k: Seq<char>| long.contains(k) == (short.contains(k) || k == name@) by {
                if short.contains(k) {
                    let i = choose|i: int| 0 <= i < short.len() && short[i] == k;
                    assert(long[i] == k);
                }
                if k == name@ {
                    assert(long[j as int] == k);
                }
                if long.contains(k) {
                    let i = choose|i: int| 0 <= i < long.len() && long[i] == k;
                    if i < j {
                        assert(short[i] == k);
                    }
                }
            }
        }
        if starts_with(line, &name, &tail) {
            assert(name.len() + 2 == (name@ + tail@).len() <= line.len());
            let value = trimmed(line, name.len() + 2, line.len());
            assert(line@.subrange(name.len() + 2, line.len() as int) =~= line@.skip(
                name.len() + 2,
            ));
            found.insert(fields[j].clone(), from_chars(&value));
            assert(found@ =~= extracted_upto(before, line@, names, j + 1));
        } else {
            assert(found@ =~= extracted_upto(before, line@, names, j + 1));
        }
        j += 1;
    }
    assert(names.take(j as int) =~= names);
    assert(found@ =~= extracted(before.push(line@), names));
}

/// Finds in `body` the value of each field of `fields`. A line belongs to a
/// field where it begins with the field's name, a colon and one space; the
/// last such line gives the field its value, and a field without a line has
/// no entry.
pub fn extract(body: &str, fields: &Vec<String>) -> (found: FieldMap)
    ensures
        found@ == extracted(lines_of(body@), strings(fields@)),
{
    let chars = to_chars(body);
    let lines = split_lines(&chars);
    let mut found = FieldMap::new();
    assert(found@ =~= extracted(Seq::empty(), strings(fields@)));
    let mut i: usize = 0;
    while i < lines.len()
        invariant
            i <= lines.len(),
            texts(lines@) == lines_of(body@),
            found@ == extracted(texts(lines@).take(i as int), strings(fields@)),
        decreases lines.len() - i,
    {
        extract_line(&mut found, &lines[i], fields, Ghost(texts(lines@).take(i as int)));
        assert(texts(lines@).take(i + 1) =~= texts(lines@).take(i as int).push(lines@[i as int]@));
        i += 1;
    }
    assert(texts(lines@).take(i as int) =~= texts(lines@));
    found
}

/// The value of a field is that of its last line: where line `at` belongs to
/// the field `name` and no later line does, the field's value is what that
/// line gives.
pub proof fn lemma_last_line_wins(lines: Seq<Seq<char>>, name: Seq<char>, at: int)
    requires
        0 <= at < lines.len(),
        line_matches(lines[at], name),
        forall|k: int| at < k < lines.len() ==> !line_matches(#[trigger] lines[k], name),
    ensures
        field_value(lines, name) == Some(line_value(lines[at], name)),
    decreases lines.len(),
{
    if at + 1 < lines.len() {
        assert(!line_matches(lines[lines.len() - 1], name));
        lemma_last_line_wins(lines.drop_last(), name, at);
    }
}

/// A field has a value exactly where one of the lines belongs to it.
pub proof fn lemma_value_iff_some_line(lines: Seq<Seq<char>>, name: Seq<char>)
    ensures
        field_value(lines, name) is Some <==> exists|i: int|
            0 <= i < lines.len() && line_matches(#[trigger] lines[i], name),
    decreases lines.len(),
{
    if lines.len() > 0 {
        let rest = lines.drop_last();
        lemma_value_iff_some_line(rest, name);
        if line_matches(lines.last(), name) {
            assert(line_matches(lines[lines.len() - 1], name));
        } else if field_value(rest, name) is Some {
            let i = choose|i: int| 0 <= i < rest.len() && line_matches(#[trigger] rest[i], name);
            assert(line_matches(lines[i], name));
        } else if exists|i: int| 0 <= i < lines.len() && line_matches(#[trigger] lines[i], name) {
            let i = choose|i: int| 0 <= i < lines.len() && line_matches(#[trigger] lines[i], name);
            assert(line_matches(rest[i], name));
        }
    }
}

/// A line made of a configured field's name, a colon, a space and a text
/// gives the field an entry. The entry holds the text without the white
/// space around it, unless a later line of the same field replaces it.
pub proof fn lemma_field_line_is_found(
    body: Seq<char>,
    names: Seq<Seq<char>>,
    name: Seq<char>,
    at: int,
    text: Seq<char>,
)
    requires
        names.contains(name),
        0 <= at < lines_of(body).len(),
        lines_of(body)[at] == field_prefix(name) + text,
    ensures
        extracted(lines_of(body), names).contains_key(name),
        (forall|k: int|
            at < k < lines_of(body).len() ==> !line_matches(#[trigger] lines_of(body)[k], name))
            ==> extracted(lines_of(body), names)[name] == trim(text),
{
    let lines = lines_of(body);
    let line = lines[at];
    assert(line.subrange(0, field_prefix(name).len() as int) =~= field_prefix(name));
    assert(line_matches(lines[at], name));
    assert(line.skip(name.len() as int + 2) =~= text);
    lemma_value_iff_some_line(lines, name);
    if forall|k: int| at < k < lines.len() ==> !line_matches(#[trigger] lines[k], name) {
        lemma_last_line_wins(lines, name, at);
    }
}

/// A field without a line has no entry, and neither has a name that is not
/// among the configured fields.
pub proof fn lemma_absent_field_has_no_entry(
    body: Seq<char>,
    names: Seq<Seq<char>>,
    name: Seq<char>,
)
    requires
        !names.contains(name) || forall|i: int|
            0 <= i < lines_of(body).len() ==> !line_matches(#[trigger] lines_of(body)[i], name),
    ensures
        !extracted(lines_of(body), names).contains_key(name),
{
    lemma_value_iff_some_line(lines_of(body), name);
}

/// Where two lines belong to one configured field, the later one decides:
/// the entry holds the value of the last line of the field.
pub proof fn lemma_later_line_wins(
    body: Seq<char>,
    names: Seq<Seq<char>>,
    name: Seq<char>,
    earlier: int,
    later: int,
)
    requires
        names.contains(name),
        0 <= earlier < later < lines_of(body).len(),
        line_matches(lines_of(body)[earlier], name),
        line_matches(lines_of(body)[later], name),
        forall|k: int|
            later < k < lines_of(body).len() ==> !line_matches(#[trigger] lines_of(body)[k], name),
    ensures
        extracted(lines_of(body), names).contains_key(name),
        extracted(lines_of(body), names)[name] == line_value(lines_of(body)[later], name),
{
    lemma_last_line_wins(lines_of(body), name, later);
}

} // verus!
