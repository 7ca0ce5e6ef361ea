//! Properties of the parser, stated over the record model and proved.

use vstd::prelude::*;

use crate::release::{
    default_model, key_prefix, known_field, lemma_key_shape, lemma_known_field_from,
    lemma_known_key, lemma_parse_push, lemma_separator_unique, lemma_unknown_key, line_views,
    parse_lines, OsRelease, FIELD_COUNT,
};
use crate::text::{
    all_space, enclosed, has_separator, is_space, lemma_trim_end_skips, lemma_trim_keeps_no_separator,
    lemma_trim_start_skips, trim, trim_end, trim_start,
};

verus! {

/// A line without `=` changes nothing: blank lines and comments such as
/// `# Comment` are skipped.
pub proof fn lemma_line_without_separator_skipped(lines: Seq<Seq<char>>, line: Seq<char>)
    requires
        !has_separator(line),
    ensures
        parse_lines(lines.push(line)) == parse_lines(lines),
{
    lemma_parse_push(lines, line);
    let t = trim(line);
    lemma_trim_keeps_no_separator(line);
    lemma_known_field_from(t, 0);
    if let Some(i) = known_field(t) {
        lemma_key_shape(i);
        let ki = key_prefix(i);
        assert(t[ki.len() - 1] == ki[ki.len() - 1]);
    }
}

/// Lines none of which holds a `=` give the default record.
pub proof fn lemma_no_separator_gives_default(lines: Seq<Seq<char>>)
    requires
        forall|l: int| 0 <= l < lines.len() ==> !has_separator(#[trigger] lines[l]),
    ensures
        parse_lines(lines) == default_model(),
    decreases lines.len(),
{
    if lines.len() > 0 {
        let before = lines.drop_last();
        assert(lines =~= before.push(lines.last()));
        lemma_no_separator_gives_default(before);
        lemma_line_without_separator_skipped(before, lines.last());
    }
}

/// A line `KEY=value` whose key is not a known field's, with nothing to trim
/// around it and a non-empty value, stores `value` under `KEY` exactly as
/// written, and changes nothing else.
pub proof fn lemma_unknown_key_stored(lines: Seq<Seq<char>>, key: Seq<char>, value: Seq<char>)
    requires
        forall|k: int| 0 <= k < key.len() ==> key[k] != '=',
        forall|i: int| 0 <= i < FIELD_COUNT ==> key + seq!['='] != key_prefix(i),
        key.len() > 0 ==> !is_space(key[0]),
        value.len() > 0,
        !is_space(value.last()),
    ensures
        ({
            let after = parse_lines(lines.push(key + seq!['='] + value));
            let before = parse_lines(lines);
            after.fields == before.fields && after.extra == before.extra.insert(key, value)
        }),
{
    let line = key + seq!['='] + value;
    lemma_parse_push(lines, line);
    assert(trim_start(line) == line);
    assert(trim_end(line) == line);
    assert(line.subrange(0, key.len() as int) =~= key);
    lemma_unknown_key(key, line);
    lemma_separator_unique(line, key.len() as int);
    assert(line.subrange(key.len() as int + 1, line.len() as int) =~= value);
}

/// Of two lines with the same unknown key, the later one's value stays.
pub proof fn lemma_last_value_wins(
    lines: Seq<Seq<char>>,
    key: Seq<char>,
    first: Seq<char>,
    second: Seq<char>,
)
    requires
        forall|k: int| 0 <= k < key.len() ==> key[k] != '=',
        forall|i: int| 0 <= i < FIELD_COUNT ==> key + seq!['='] != key_prefix(i),
        key.len() > 0 ==> !is_space(key[0]),
        first.len() > 0,
        !is_space(first.last()),
        second.len() > 0,
        !is_space(second.last()),
    ensures
        parse_lines(lines.push(key + seq!['='] + first).push(key + seq!['='] + second)).extra
            == parse_lines(lines).extra.insert(key, second),
{
    let once = lines.push(key + seq!['='] + first);
    lemma_unknown_key_stored(lines, key, first);
    lemma_unknown_key_stored(once, key, second);
    assert(parse_lines(lines).extra.insert(key, first).insert(key, second) =~= parse_lines(
        lines,
    ).extra.insert(key, second));
}

/// A line that trims to `KEY=`, with a key that is not a known field's,
/// changes nothing.
pub proof fn lemma_empty_value_dropped(lines: Seq<Seq<char>>, line: Seq<char>, key: Seq<char>)
    requires
        trim(line) == key + seq!['='],
        forall|k: int| 0 <= k < key.len() ==> key[k] != '=',
        forall|i: int| 0 <= i < FIELD_COUNT ==> key + seq!['='] != key_prefix(i),
    ensures
        parse_lines(lines.push(line)) == parse_lines(lines),
{
    let t = trim(line);
    lemma_parse_push(lines, line);
    assert(t.subrange(0, key.len() as int) =~= key);
    lemma_unknown_key(key, t);
    lemma_separator_unique(t, key.len() as int);
}

/// A known field's value in matching double or single quotes is stored
/// without them.
pub proof fn lemma_quoted_value(lines: Seq<Seq<char>>, i: int, q: char, inner: Seq<char>)
    requires
        0 <= i < FIELD_COUNT,
        q == '"' || q == '\'',
    ensures
        ({
            let after = parse_lines(lines.push(key_prefix(i) + seq![q] + inner + seq![q]));
            let before = parse_lines(lines);
            after.fields == before.fields.update(i, inner) && after.extra == before.extra
        }),
{
    let k = key_prefix(i);
    let quoted = seq![q] + inner + seq![q];
    let line = k + quoted;
    assert(line =~= k + seq![q] + inner + seq![q]);
    lemma_parse_push(lines, line);
    lemma_key_shape(i);
    assert(line[0] == k[0]);
    assert(trim_start(line) == line);
    assert(line.last() == q);
    assert(trim_end(line) == line);
    assert(line.subrange(0, k.len() as int) =~= k);
    lemma_known_key(i, line);
    assert(line.subrange(k.len() as int, line.len() as int) =~= quoted);
    assert(trim_start(quoted) == quoted);
    assert(trim_end(quoted) == quoted);
    assert(enclosed(quoted, q));
    assert(quoted.subrange(1, quoted.len() - 1) =~= inner);
}

/// A known field's value without enclosing quotes is stored as written,
/// without the whitespace around it.
pub proof fn lemma_plain_value(
    lines: Seq<Seq<char>>,
    i: int,
    lead: Seq<char>,
    value: Seq<char>,
    tail: Seq<char>,
)
    requires
        0 <= i < FIELD_COUNT,
        all_space(lead),
        all_space(tail),
        value.len() > 0 ==> !is_space(value[0]) && !is_space(value.last()),
        !enclosed(value, '"'),
        !enclosed(value, '\''),
    ensures
        ({
            let after = parse_lines(lines.push(key_prefix(i) + lead + value + tail));
            let before = parse_lines(lines);
            after.fields == before.fields.update(i, value) && after.extra == before.extra
        }),
{
    let k = key_prefix(i);
    let line = k + lead + value + tail;
    lemma_parse_push(lines, line);
    lemma_key_shape(i);
    assert(line[0] == k[0]);
    assert(trim_start(line) == line);
    lemma_trim_end_skips(k + lead + value, tail);
    let t = trim(line);
    if value.len() > 0 {
        assert((k + lead + value).last() == value.last());
        assert(t == k + lead + value);
        assert(t.subrange(k.len() as int, t.len() as int) =~= lead + value);
        lemma_trim_start_skips(lead, value);
        assert(trim_start(value) == value);
        assert(trim_end(value) == value);
    } else {
        assert(k + lead + value =~= k + lead);
        assert(k + lead =~= k + Seq::<char>::empty() + lead);
        lemma_trim_end_skips(k, lead);
        assert(trim_end(k) == k);
        assert(t == k);
        assert(t.subrange(k.len() as int, t.len() as int) =~= value);
    }
    assert(t.subrange(0, k.len() as int) =~= k);
    lemma_known_key(i, t);
}

/// Two records read from the same lines are equal.
pub proof fn lemma_parse_deterministic(a: OsRelease, b: OsRelease, lines: Seq<String>)
    requires
        a@ == parse_lines(line_views(lines)),
        b@ == parse_lines(line_views(lines)),
    ensures
        a@ == b@,
{
}

} // verus!
