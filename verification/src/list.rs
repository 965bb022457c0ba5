//! Colon-separated lists: the form of a search path.

use crate::text::texts;
use vstd::prelude::*;
use vstd::string::*;

verus! {

/// The character that separates the fragments of a search path.
pub open spec fn colon() -> char {
    ':'
}

/// The fragments joined into one string, with a colon between each two.
pub open spec fn spec_join_list(parts: Seq<Seq<char>>) -> Seq<char>
    decreases parts.len(),
{
    if parts.len() == 0 {
        Seq::empty()
    } else if parts.len() == 1 {
        parts[0]
    } else {
        spec_join_list(parts.drop_last()).push(colon()) + parts.last()
    }
}

/// The position of the first colon at or after `from`, or the length of
/// `value` where there is none.
pub open spec fn field_end(value: Seq<char>, from: int) -> int
    decreases value.len() - from,
{
    if from < 0 || from >= value.len() {
        value.len() as int
    } else if value[from] == colon() {
        from
    } else {
        field_end(value, from + 1)
    }
}

/// A field's end lies at or after its start, and within the value.
pub proof fn lemma_field_end_bounds(value: Seq<char>, from: int)
    requires
        0 <= from <= value.len(),
    ensures
        from <= field_end(value, from) <= value.len(),
        field_end(value, from) < value.len() ==> value[field_end(value, from)] == colon(),
        forall|i: int| from <= i < field_end(value, from) ==> value[i] != colon(),
    decreases value.len() - from,
{
    if from < value.len() && value[from] != colon() {
        lemma_field_end_bounds(value, from + 1);
    }
}

/// The fields of `value` from position `start` on.
pub open spec fn fields_from(value: Seq<char>, start: int) -> Seq<Seq<char>>
    decreases value.len() - start,
{
    if start < 0 || start > value.len() {
        Seq::empty()
    } else {
        proof {
            lemma_field_end_bounds(value, start);
        }
        let end = field_end(value, start);
        if end >= value.len() {
            seq![value.subrange(start, end)]
        } else {
            seq![value.subrange(start, end)] + fields_from(value, end + 1)
        }
    }
}

/// The fields of a colon-separated `value`: what stands before the first
/// colon, between each two and after the last. There is always one field
/// more than there are colons; the empty value has one empty field.
pub open spec fn spec_split_list(value: Seq<char>) -> Seq<Seq<char>> {
    fields_from(value, 0)
}

/// The position of the first colon at or after `from`.
fn find_field_end(value: &str, len: usize, from: usize) -> (end: usize)
    requires
        len == value@.len(),
        from <= len,
    ensures
        end == field_end(value@, from as int),
        from <= end <= len,
{
    let mut i = from;
    while i < len && value.get_char(i) != ':'
        invariant
            len == value@.len(),
            from <= i <= len,
            field_end(value@, from as int) == field_end(value@, i as int),
        decreases len - i,
    {
        i = i + 1;
    }
    i
}

/// Splits a colon-separated list into its fields.
pub fn split_list(value: &str) -> (fields: Vec<String>)
    ensures
        texts(fields@) == spec_split_list(value@),
{
    let len = value.unicode_len();
    let mut fields: Vec<String> = Vec::new();
    let mut start: usize = 0;
    assert(texts(fields@) =~= Seq::<Seq<char>>::empty());
    loop
        invariant
            len == value@.len(),
            start <= len,
            spec_split_list(value@) == texts(fields@) + fields_from(value@, start as int),
        decreases len - start,
    {
        let end = find_field_end(value, len, start);
        let ghost before = texts(fields@);
        fields.push(value.substring_char(start, end).to_owned());
        assert(texts(fields@) =~= before + seq![value@.subrange(start as int, end as int)]);
        if end >= len {
            return fields;
        }
        assert(before + (seq![value@.subrange(start as int, end as int)] + fields_from(
            value@,
            end + 1,
        )) =~= (before + seq![value@.subrange(start as int, end as int)]) + fields_from(
            value@,
            end + 1,
        ));
        start = end + 1;
    }
}

/// Joins fragments into a search path, with a colon between each two.
pub fn join_list(parts: &Vec<String>) -> (joined: String)
    ensures
        joined@ == spec_join_list(texts(parts@)),
{
    let mut joined = String::new();
    let ghost all = texts(parts@);
    let mut i: usize = 0;
    assert(all.take(0) =~= Seq::<Seq<char>>::empty());
    while i < parts.len()
        invariant
            i <= parts.len(),
            all == texts(parts@),
            joined@ == spec_join_list(all.take(i as int)),
        decreases parts.len() - i,
    {
        proof {
            reveal_strlit(":");
            assert(":"@ =~= seq![colon()]);
            assert(all.take(i + 1).drop_last() =~= all.take(i as int));
            assert(all.take(i + 1).last() == parts@[i as int]@);
            assert(joined@ + seq![colon()] =~= joined@.push(colon()));
            assert(Seq::<char>::empty() + parts@[i as int]@ =~= parts@[i as int]@);
        }
        if i > 0 {
            joined.append(":");
        }
        joined.append(parts[i].as_str());
        i = i + 1;
    }
    assert(all.take(i as int) =~= all);
    joined
}

/// Joining a first fragment with further ones puts a colon behind it.
proof fn lemma_join_first(first: Seq<char>, rest: Seq<Seq<char>>)
    requires
        rest.len() > 0,
    ensures
        spec_join_list(seq![first] + rest) == first.push(colon()) + spec_join_list(rest),
    decreases rest.len(),
{
    let all = seq![first] + rest;
    assert(all.last() == rest.last());
    if rest.len() == 1 {
        assert(all.drop_last() =~= seq![first]);
        assert(spec_join_list(seq![first]) == first);
        assert(spec_join_list(rest) == rest.last());
    } else {
        let front = rest.drop_last();
        lemma_join_first(first, front);
        assert(all.drop_last() =~= seq![first] + front);
        assert((first.push(colon()) + spec_join_list(front)).push(colon()) + rest.last()
            =~= first.push(colon()) + (spec_join_list(front).push(colon()) + rest.last()));
    }
}

/// The fields from `start` on, joined, are the value from `start` on.
proof fn lemma_join_fields(value: Seq<char>, start: int)
    requires
        0 <= start <= value.len(),
    ensures
        fields_from(value, start).len() > 0,
        spec_join_list(fields_from(value, start)) == value.subrange(start, value.len() as int),
    decreases value.len() - start,
{
    lemma_field_end_bounds(value, start);
    let end = field_end(value, start);
    if end < value.len() {
        lemma_join_fields(value, end + 1);
        lemma_join_first(value.subrange(start, end), fields_from(value, end + 1));
        assert(value.subrange(start, end).push(colon()) + value.subrange(
            end + 1,
            value.len() as int,
        ) =~= value.subrange(start, value.len() as int));
    }
}

/// Splitting loses nothing: the fields of a value, joined with colons, are
/// the value again, and there is at least one field.
pub proof fn lemma_join_undoes_split(value: Seq<char>)
    ensures
        spec_split_list(value).len() > 0,
        spec_join_list(spec_split_list(value)) == value,
{
    lemma_join_fields(value, 0);
    assert(value.subrange(0, value.len() as int) =~= value);
}

} // verus!
