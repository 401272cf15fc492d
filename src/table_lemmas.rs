use vstd::prelude::*;

use crate::query_string::{
    add_value, count_char, keys, lemma_first_index, lookup, pairs_of, parse_table, segments,
    split_pair, table_of, Table, PAIR_SEPARATOR,
};

verus! {

/// How many values a table holds over all its keys.
pub open spec fn total_values(t: Table) -> nat
    decreases t.len(),
{
    if t.len() == 0 {
        0
    } else {
        total_values(t.drop_last()) + t.last().1.len()
    }
}

proof fn lemma_total_update(t: Table, i: int, e: (Seq<char>, Seq<Seq<char>>))
    requires
        0 <= i < t.len(),
    ensures
        total_values(t.update(i, e)) + t[i].1.len() == total_values(t) + e.1.len(),
    decreases t.len(),
{
    let u = t.update(i, e);
    if i == t.len() - 1 {
        assert(u.drop_last() =~= t.drop_last());
    } else {
        assert(u.drop_last() =~= t.drop_last().update(i, e));
        lemma_total_update(t.drop_last(), i, e);
    }
}

proof fn lemma_total_add(t: Table, k: Seq<char>, v: Seq<char>)
    ensures
        total_values(add_value(t, k, v)) == total_values(t) + 1,
{
    keys(t).index_of_first_ensures(k);
    match keys(t).index_of_first(k) {
        Some(i) => {
            lemma_total_update(t, i, (k, t[i].1.push(v)));
        },
        None => {
            assert(t.push((k, seq![v])).drop_last() =~= t);
        },
    }
}

proof fn lemma_total_table_of(pairs: Seq<(Seq<char>, Seq<char>)>)
    ensures
        total_values(table_of(pairs)) == pairs.len(),
    decreases pairs.len(),
{
    if pairs.len() > 0 {
        lemma_total_table_of(pairs.drop_last());
        lemma_total_add(table_of(pairs.drop_last()), pairs.last().0, pairs.last().1);
    }
}

proof fn lemma_segments_len(s: Seq<char>)
    ensures
        segments(s).len() == count_char(s, PAIR_SEPARATOR) + 1,
    decreases s.len(),
{
    if s.len() > 0 {
        lemma_segments_len(s.drop_last());
    }
}

/// Flattening a parsed table gives back one value per segment of the input:
/// one more than the number of pair separators, whatever the segments hold.
pub proof fn lemma_value_count(s: Seq<char>)
    ensures
        total_values(parse_table(s)) == count_char(s, PAIR_SEPARATOR) + 1,
{
    lemma_segments_len(s);
    lemma_total_table_of(pairs_of(segments(s)));
}

proof fn lemma_segments_append(s: Seq<char>, seg: Seq<char>)
    requires
        !seg.contains(PAIR_SEPARATOR),
    ensures
        segments(s + seq![PAIR_SEPARATOR] + seg) == segments(s).push(seg),
    decreases seg.len(),
{
    let x = s + seq![PAIR_SEPARATOR] + seg;
    if seg.len() == 0 {
        assert(x.drop_last() =~= s);
        assert(x.last() == PAIR_SEPARATOR);
        assert(seg =~= Seq::<char>::empty());
    } else {
        let prefix = seg.drop_last();
        assert(!prefix.contains(PAIR_SEPARATOR)) by {
            if prefix.contains(PAIR_SEPARATOR) {
                let j = choose|j: int| 0 <= j < prefix.len() && prefix[j] == PAIR_SEPARATOR;
                assert(seg[j] == PAIR_SEPARATOR);
            }
        }
        assert(seg.last() != PAIR_SEPARATOR) by {
            assert(seg[seg.len() - 1] == seg.last());
        }
        lemma_segments_append(s, prefix);
        assert(x.drop_last() =~= s + seq![PAIR_SEPARATOR] + prefix);
        assert(x.last() == seg.last());
        assert(prefix.push(seg.last()) =~= seg);
        assert(segments(s).push(prefix).update(segments(s).len() as int, prefix.push(seg.last()))
            =~= segments(s).push(seg));
    }
}

proof fn lemma_lookup_add(t: Table, k: Seq<char>, v: Seq<char>, other: Seq<char>)
    ensures
        lookup(add_value(t, k, v), k) == match lookup(t, k) {
            Some(vs) => Some(vs.push(v)),
            None => Some(seq![v]),
        },
        other != k ==> lookup(add_value(t, k, v), other) == lookup(t, other),
{
    let u = add_value(t, k, v);
    keys(t).index_of_first_ensures(k);
    keys(t).index_of_first_ensures(other);
    match keys(t).index_of_first(k) {
        Some(i) => {
            assert(keys(u) =~= keys(t));
        },
        None => {
            assert(keys(u) =~= keys(t).push(k));
            assert forall|j: int| 0 <= j < t.len() implies keys(u)[j] != k by {
                assert(keys(u)[j] == keys(t)[j]);
            }
            lemma_first_index(keys(u), k, t.len() as int);
            if other != k {
                match keys(t).index_of_first(other) {
                    Some(i) => {
                        lemma_first_index(keys(u), other, i);
                    },
                    None => {
                        keys(u).index_of_first_ensures(other);
                        if keys(u).contains(other) {
                            let j = choose|j: int| 0 <= j < keys(u).len() && keys(u)[j] == other;
                            assert(keys(t)[j] == other);
                        }
                    },
                }
            }
        },
    }
}

/// Appending one more segment to an input appends its value to the values
/// of its key, in order, or gives the key a first value; every other key
/// keeps what it had.
pub proof fn lemma_append_segment(s: Seq<char>, seg: Seq<char>, other: Seq<char>)
    requires
        !seg.contains(PAIR_SEPARATOR),
    ensures
        lookup(parse_table(s + seq![PAIR_SEPARATOR] + seg), split_pair(seg).0) == match lookup(
            parse_table(s),
            split_pair(seg).0,
        ) {
            Some(vs) => Some(vs.push(split_pair(seg).1)),
            None => Some(seq![split_pair(seg).1]),
        },
        other != split_pair(seg).0 ==> lookup(parse_table(s + seq![PAIR_SEPARATOR] + seg), other)
            == lookup(parse_table(s), other),
{
    lemma_segments_append(s, seg);
    let segs = segments(s);
    assert(pairs_of(segs.push(seg)).drop_last() =~= pairs_of(segs));
    lemma_lookup_add(parse_table(s), split_pair(seg).0, split_pair(seg).1, other);
}

proof fn lemma_keys_add(t: Table, k: Seq<char>, v: Seq<char>)
    requires
        keys(t).no_duplicates(),
    ensures
        keys(add_value(t, k, v)).no_duplicates(),
        keys(add_value(t, k, v)).contains(k),
{
    keys(t).index_of_first_ensures(k);
    let u = add_value(t, k, v);
    match keys(t).index_of_first(k) {
        Some(i) => {
            assert(keys(u) =~= keys(t));
        },
        None => {
            assert(keys(u) =~= keys(t).push(k));
            assert(keys(u)[t.len() as int] == k);
        },
    }
}

proof fn lemma_keys_table_of(pairs: Seq<(Seq<char>, Seq<char>)>)
    ensures
        keys(table_of(pairs)).no_duplicates(),
    decreases pairs.len(),
{
    if pairs.len() > 0 {
        lemma_keys_table_of(pairs.drop_last());
        lemma_keys_add(table_of(pairs.drop_last()), pairs.last().0, pairs.last().1);
    }
}

/// No key has two entries in a parsed table.
pub proof fn lemma_keys_unique(s: Seq<char>)
    ensures
        keys(parse_table(s)).no_duplicates(),
{
    lemma_keys_table_of(pairs_of(segments(s)));
}

/// The table of pairs whose keys are all different: one entry per pair, with
/// that pair's value alone.
pub open spec fn singles(pairs: Seq<(Seq<char>, Seq<char>)>) -> Table {
    pairs.map_values(|p: (Seq<char>, Seq<char>)| (p.0, seq![p.1]))
}

/// The keys of a sequence of pairs.
pub open spec fn pair_keys(pairs: Seq<(Seq<char>, Seq<char>)>) -> Seq<Seq<char>> {
    pairs.map_values(|p: (Seq<char>, Seq<char>)| p.0)
}

proof fn lemma_table_of_distinct(pairs: Seq<(Seq<char>, Seq<char>)>)
    requires
        pair_keys(pairs).no_duplicates(),
    ensures
        table_of(pairs) == singles(pairs),
    decreases pairs.len(),
{
    if pairs.len() > 0 {
        let init = pairs.drop_last();
        let n = init.len() as int;
        assert(pair_keys(pairs).no_duplicates() ==> pair_keys(init).no_duplicates()) by {
            assert forall|i: int, j: int|
                0 <= i < init.len() && 0 <= j < init.len() && i != j implies pair_keys(init)[i]
                != pair_keys(init)[j] by {
                assert(pair_keys(init)[i] == pair_keys(pairs)[i]);
                assert(pair_keys(init)[j] == pair_keys(pairs)[j]);
            }
        }
        lemma_table_of_distinct(init);
        let t = singles(init);
        assert(keys(t) =~= pair_keys(init));
        keys(t).index_of_first_ensures(pairs.last().0);
        if keys(t).contains(pairs.last().0) {
            let j = choose|j: int| 0 <= j < keys(t).len() && keys(t)[j] == pairs.last().0;
            assert(pair_keys(pairs)[j] == pair_keys(pairs)[n]);
        }
        assert(t.push((pairs.last().0, seq![pairs.last().1])) =~= singles(pairs));
    }
}

/// Where no key repeats, each key holds exactly one value: what follows the
/// first key/value separator of its segment, or nothing if it has none.
pub proof fn lemma_single_valued(s: Seq<char>)
    requires
        pair_keys(pairs_of(segments(s))).no_duplicates(),
    ensures
        parse_table(s) == singles(pairs_of(segments(s))),
{
    lemma_table_of_distinct(pairs_of(segments(s)));
}

} // verus!
