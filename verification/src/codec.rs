//! Specification-level model of the store's on-disk format: one record per
//! line, `key` + tab + `value` + newline. Decoding splits the text into
//! lines, skips empty lines, and splits each remaining line at its first
//! tab; a non-empty line without a tab means the file is corrupt.

use vstd::prelude::*;

verus! {

/// True when a key or value may be written to the backing file and read
/// back unchanged: the line format reserves tab as the key/value delimiter
/// and newline as the record terminator.
pub open spec fn clean_text(s: Seq<char>) -> bool {
    forall|i: int| 0 <= i < s.len() ==> s[i] != '\t' && s[i] != '\n'
}

/// Index of the first occurrence of `c` in `s`, or `s.len()` when `c` does
/// not occur.
pub open spec fn find_char(s: Seq<char>, c: char) -> int
    decreases s.len(),
{
    if s.len() == 0 {
        0
    } else if s[0] == c {
        0
    } else {
        1 + find_char(s.drop_first(), c)
    }
}

/// `find_char` returns an in-range index, points at `c` unless `c` is
/// absent, and nothing before it is `c`.
pub proof fn lemma_find_char(s: Seq<char>, c: char)
    ensures
        0 <= find_char(s, c) <= s.len(),
        find_char(s, c) < s.len() ==> s[find_char(s, c)] == c,
        forall|i: int| 0 <= i < find_char(s, c) ==> s[i] != c,
    decreases s.len(),
{
    if s.len() != 0 && s[0] != c {
        lemma_find_char(s.drop_first(), c);
        assert forall|i: int| 0 <= i < find_char(s, c) implies s[i] != c by {
            if i > 0 {
                assert(s.drop_first()[i - 1] != c);
            }
        }
    }
}

/// `find_char` is determined by the characterization above: any index with
/// those properties is the one it returns.
pub proof fn lemma_find_char_is(s: Seq<char>, c: char, f: int)
    requires
        0 <= f <= s.len(),
        f < s.len() ==> s[f] == c,
        forall|i: int| 0 <= i < f ==> s[i] != c,
    ensures
        find_char(s, c) == f,
    decreases s.len(),
{
    lemma_find_char(s, c);
    if s.len() != 0 && s[0] != c {
        lemma_find_char_is(s.drop_first(), c, f - 1);
    }
}

/// The encoding of a single record: `key` + tab + `value` + newline.
pub open spec fn entry_line(key: Seq<char>, value: Seq<char>) -> Seq<char> {
    key + seq!['\t'] + value + seq!['\n']
}

/// The full file contents for a sequence of records, in order.
pub open spec fn encode_entries(es: Seq<(Seq<char>, Seq<char>)>) -> Seq<char>
    decreases es.len(),
{
    if es.len() == 0 {
        Seq::empty()
    } else {
        entry_line(es.first().0, es.first().1) + encode_entries(es.drop_first())
    }
}

/// Decodes file contents into the sequence of records it holds, in file
/// order. Empty lines are skipped; a non-empty line with no tab is
/// corruption, and the whole decode fails.
pub open spec fn parse_entries(s: Seq<char>) -> Option<Seq<(Seq<char>, Seq<char>)>>
    decreases s.len(),
    via parse_entries_decreases
{
    if s.len() == 0 {
        Some(Seq::empty())
    } else {
        let j = find_char(s, '\n');
        let line = s.take(j);
        let rest = if j < s.len() {
            s.skip(j + 1)
        } else {
            Seq::empty()
        };
        if line.len() == 0 {
            parse_entries(rest)
        } else {
            let t = find_char(line, '\t');
            if t == line.len() {
                None
            } else {
                match parse_entries(rest) {
                    Some(es) => Some(seq![(line.take(t), line.skip(t + 1))] + es),
                    None => None,
                }
            }
        }
    }
}

#[via_fn]
proof fn parse_entries_decreases(s: Seq<char>) {
    lemma_find_char(s, '\n');
}

/// The mapping that a sequence of records denotes: records are inserted in
/// order, so a later record for the same key wins.
pub open spec fn map_of_entries(es: Seq<(Seq<char>, Seq<char>)>) -> Map<Seq<char>, Seq<char>>
    decreases es.len(),
{
    if es.len() == 0 {
        Map::empty()
    } else {
        map_of_entries(es.drop_last()).insert(es.last().0, es.last().1)
    }
}

/// Decodes file contents into the mapping they denote.
pub open spec fn parse_store(s: Seq<char>) -> Option<Map<Seq<char>, Seq<char>>> {
    match parse_entries(s) {
        Some(es) => Some(map_of_entries(es)),
        None => None,
    }
}

/// True when every key and value in `es` stays clear of the delimiter
/// characters.
pub open spec fn clean_entries(es: Seq<(Seq<char>, Seq<char>)>) -> bool {
    forall|i: int| 0 <= i < es.len() ==> clean_text(#[trigger] es[i].0) && clean_text(es[i].1)
}

/// True when no two records in `es` share a key.
pub open spec fn unique_keys(es: Seq<(Seq<char>, Seq<char>)>) -> bool {
    forall|i: int, j: int| 0 <= i < j < es.len() ==> (#[trigger] es[i]).0 != (#[trigger] es[j]).0
}

/// A key that appears in no record is absent from the denoted mapping.
pub proof fn lemma_map_of_entries_absent(es: Seq<(Seq<char>, Seq<char>)>, k: Seq<char>)
    requires
        forall|i: int| 0 <= i < es.len() ==> (#[trigger] es[i]).0 != k,
    ensures
        !map_of_entries(es).contains_key(k),
    decreases es.len(),
{
    if es.len() > 0 {
        assert(forall|i: int|
            0 <= i < es.drop_last().len() ==> #[trigger] es.drop_last()[i] == es[i]);
        lemma_map_of_entries_absent(es.drop_last(), k);
    }
}

/// With unique keys, the record at any index gives the mapping's value for
/// its key.
pub proof fn lemma_map_of_entries_lookup(es: Seq<(Seq<char>, Seq<char>)>, i: int)
    requires
        unique_keys(es),
        0 <= i < es.len(),
    ensures
        map_of_entries(es).contains_key(es[i].0),
        map_of_entries(es)[es[i].0] == es[i].1,
    decreases es.len(),
{
    if i < es.len() - 1 {
        assert(forall|m: int|
            0 <= m < es.drop_last().len() ==> #[trigger] es.drop_last()[m] == es[m]);
        lemma_map_of_entries_lookup(es.drop_last(), i);
        assert(es[i].0 != es.last().0);
    }
}

/// With unique keys, removing the record at an index removes exactly its
/// key from the denoted mapping.
pub proof fn lemma_map_of_entries_remove(es: Seq<(Seq<char>, Seq<char>)>, i: int)
    requires
        unique_keys(es),
        0 <= i < es.len(),
    ensures
        map_of_entries(es.remove(i)) == map_of_entries(es).remove(es[i].0),
    decreases es.len(),
{
    let k = es[i].0;
    if i == es.len() - 1 {
        assert(es.remove(i) =~= es.drop_last());
        assert(forall|m: int|
            0 <= m < es.drop_last().len() ==> (#[trigger] es.drop_last()[m]).0 != k);
        lemma_map_of_entries_absent(es.drop_last(), k);
        assert(map_of_entries(es.drop_last()).insert(k, es[i].1).remove(k)
            =~= map_of_entries(es.drop_last()));
    } else {
        assert(forall|m: int|
            0 <= m < es.drop_last().len() ==> #[trigger] es.drop_last()[m] == es[m]);
        lemma_map_of_entries_remove(es.drop_last(), i);
        assert(es.remove(i).drop_last() =~= es.drop_last().remove(i));
        assert(es.remove(i).last() == es.last());
        assert(es.remove(i).len() > 0);
        assert(map_of_entries(es.remove(i))
            == map_of_entries(es.drop_last().remove(i)).insert(es.last().0, es.last().1));
        assert(k != es.last().0);
        assert(map_of_entries(es.drop_last()).remove(k).insert(es.last().0, es.last().1)
            =~= map_of_entries(es.drop_last()).insert(es.last().0, es.last().1).remove(k));
    }
}

/// Appending a record inserts its key into the denoted mapping.
pub proof fn lemma_map_of_entries_push(
    es: Seq<(Seq<char>, Seq<char>)>,
    k: Seq<char>,
    v: Seq<char>,
)
    ensures
        map_of_entries(es.push((k, v))) == map_of_entries(es).insert(k, v),
{
    assert(es.push((k, v)).drop_last() =~= es);
}

/// Encoding distributes over appending one record at the end.
pub proof fn lemma_encode_entries_push(
    es: Seq<(Seq<char>, Seq<char>)>,
    k: Seq<char>,
    v: Seq<char>,
)
    ensures
        encode_entries(es.push((k, v))) == encode_entries(es) + entry_line(k, v),
    decreases es.len(),
{
    if es.len() == 0 {
        assert(es.push((k, v)).drop_first() =~= es);
        assert(encode_entries(es.push((k, v))) =~= encode_entries(es) + entry_line(k, v));
    } else {
        assert(es.push((k, v)).first() == es.first());
        assert(es.push((k, v)).drop_first() =~= es.drop_first().push((k, v)));
        lemma_encode_entries_push(es.drop_first(), k, v);
        assert(entry_line(es.first().0, es.first().1) + (encode_entries(es.drop_first())
            + entry_line(k, v)) =~= (entry_line(es.first().0, es.first().1) + encode_entries(
            es.drop_first(),
        )) + entry_line(k, v));
    }
}

/// The records of `es` whose keys are not in `ks`, in order.
pub open spec fn excluding(
    es: Seq<(Seq<char>, Seq<char>)>,
    ks: Set<Seq<char>>,
) -> Seq<(Seq<char>, Seq<char>)>
    decreases es.len(),
{
    if es.len() == 0 {
        Seq::empty()
    } else if ks.contains(es.last().0) {
        excluding(es.drop_last(), ks)
    } else {
        excluding(es.drop_last(), ks).push(es.last())
    }
}

/// Decoding one encoded record off the front of the contents yields that
/// record and leaves the remainder to decode.
proof fn lemma_parse_one_line(key: Seq<char>, value: Seq<char>, rest: Seq<char>)
    requires
        clean_text(key),
        clean_text(value),
    ensures
        parse_entries(entry_line(key, value) + rest) == match parse_entries(rest) {
            Some(es) => Some(seq![(key, value)] + es),
            None => None::<Seq<(Seq<char>, Seq<char>)>>,
        },
{
    let s = entry_line(key, value) + rest;
    let j = key.len() + 1 + value.len() as int;
    assert(s[j] == '\n');
    assert forall|i: int| 0 <= i < j implies s[i] != '\n' by {
        if i < key.len() {
            assert(s[i] == key[i]);
        } else if i == key.len() {
            assert(s[i] == '\t');
        } else {
            assert(s[i] == value[i - key.len() - 1]);
        }
    }
    lemma_find_char_is(s, '\n', j);
    let line = s.take(j);
    assert(line =~= key + seq!['\t'] + value);
    assert(s.skip(j + 1) =~= rest);
    assert(line[key.len() as int] == '\t');
    assert forall|i: int| 0 <= i < key.len() implies line[i] != '\t' by {
        assert(line[i] == key[i]);
    }
    lemma_find_char_is(line, '\t', key.len() as int);
    assert(line.take(key.len() as int) =~= key);
    assert(line.skip(key.len() + 1 as int) =~= value);
}

/// Round-trip law: encoding any sequence of tab- and newline-free records
/// and decoding the result yields the records back unchanged, so `flush`
/// followed by `open` reconstructs an identical mapping.
pub proof fn lemma_store_round_trip(es: Seq<(Seq<char>, Seq<char>)>)
    requires
        clean_entries(es),
    ensures
        parse_entries(encode_entries(es)) == Some(es),
        parse_store(encode_entries(es)) == Some(map_of_entries(es)),
    decreases es.len(),
{
    if es.len() == 0 {
        assert(encode_entries(es).len() == 0);
        assert(parse_entries(encode_entries(es)) == Some(Seq::<(Seq<char>, Seq<char>)>::empty()));
        assert(es =~= Seq::<(Seq<char>, Seq<char>)>::empty());
    } else {
        assert(clean_entries(es.drop_first())) by {
            assert(forall|i: int|
                0 <= i < es.drop_first().len() ==> #[trigger] es.drop_first()[i] == es[i + 1]);
        }
        lemma_store_round_trip(es.drop_first());
        lemma_parse_one_line(es.first().0, es.first().1, encode_entries(es.drop_first()));
        assert(seq![(es.first().0, es.first().1)] + es.drop_first() =~= es);
    }
}

} // verus!
