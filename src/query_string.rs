use vstd::prelude::*;

verus! {

/// Separates one key/value pair from the next.
pub const PAIR_SEPARATOR: char = '&';

/// Separates a key from its value inside one pair.
pub const KEY_VALUE_SEPARATOR: char = '=';

/// A parsed table as a sequence of entries, each a key with its values in the
/// order they appeared. Entries stand in the order their keys first appeared.
pub type Table = Seq<(Seq<char>, Seq<Seq<char>>)>;

/// The segments of `s` between pair separators, left to right. Splitting
/// always yields at least one segment, empty ones included.
pub open spec fn segments(s: Seq<char>) -> Seq<Seq<char>>
    decreases s.len(),
{
    if s.len() == 0 {
        seq![Seq::empty()]
    } else {
        let prev = segments(s.drop_last());
        if s.last() == PAIR_SEPARATOR {
            prev.push(Seq::empty())
        } else {
            prev.update(prev.len() - 1, prev.last().push(s.last()))
        }
    }
}

/// How many times `c` occurs in `s`.
pub open spec fn count_char(s: Seq<char>, c: char) -> nat
    decreases s.len(),
{
    if s.len() == 0 {
        0
    } else {
        count_char(s.drop_last(), c) + if s.last() == c {
            1nat
        } else {
            0nat
        }
    }
}

/// Splits one segment at its first key/value separator: the key is what comes
/// before it, the value everything after it. Without a separator the whole
/// segment is the key and the value is empty.
pub open spec fn split_pair(seg: Seq<char>) -> (Seq<char>, Seq<char>) {
    match seg.index_of_first(KEY_VALUE_SEPARATOR) {
        Some(i) => (seg.subrange(0, i), seg.subrange(i + 1, seg.len() as int)),
        None => (seg, Seq::empty()),
    }
}

/// The key/value pairs of a sequence of segments.
pub open spec fn pairs_of(segs: Seq<Seq<char>>) -> Seq<(Seq<char>, Seq<char>)> {
    segs.map_values(|g: Seq<char>| split_pair(g))
}

/// The keys of a table, entry by entry.
pub open spec fn keys(t: Table) -> Seq<Seq<char>> {
    t.map_values(|e: (Seq<char>, Seq<Seq<char>>)| e.0)
}

/// Records value `v` under key `k`: appended to the key's values if the key
/// has an entry, else a new entry with that one value.
pub open spec fn add_value(t: Table, k: Seq<char>, v: Seq<char>) -> Table {
    match keys(t).index_of_first(k) {
        Some(i) => t.update(i, (k, t[i].1.push(v))),
        None => t.push((k, seq![v])),
    }
}

/// The table that records the pairs one after the other.
pub open spec fn table_of(pairs: Seq<(Seq<char>, Seq<char>)>) -> Table
    decreases pairs.len(),
{
    if pairs.len() == 0 {
        Seq::empty()
    } else {
        add_value(table_of(pairs.drop_last()), pairs.last().0, pairs.last().1)
    }
}

/// The table that parsing `s` yields.
pub open spec fn parse_table(s: Seq<char>) -> Table {
    table_of(pairs_of(segments(s)))
}

/// The values recorded under `k` in `t`, if `k` has an entry.
pub open spec fn lookup(t: Table, k: Seq<char>) -> Option<Seq<Seq<char>>> {
    match keys(t).index_of_first(k) {
        Some(i) => Some(t[i].1),
        None => None,
    }
}

/// The value or values recorded under one key.
#[derive(Debug, PartialEq, Eq)]
pub enum Value {
    Single(String),
    Multiple(Vec<String>),
}

impl View for Value {
    type V = Seq<Seq<char>>;

    /// The values in order of appearance; a single value is a sequence of one.
    open spec fn view(&self) -> Seq<Seq<char>> {
        match self {
            Value::Single(v) => seq![v@],
            Value::Multiple(vs) => vs@.map_values(|x: String| x@),
        }
    }
}

impl Value {
    /// A key holds `Multiple` only once it has two values or more.
    pub open spec fn wf(&self) -> bool {
        match self {
            Value::Single(_) => true,
            Value::Multiple(vs) => vs.len() >= 2,
        }
    }
}

/// A table from key to one or many values, built by parsing a query string.
#[derive(Debug)]
pub struct QueryString {
    data: Vec<(String, Value)>,
}

impl View for QueryString {
    type V = Table;

    closed spec fn view(&self) -> Table {
        self.data@.map_values(|e: (String, Value)| (e.0@, e.1@))
    }
}

impl QueryString {
    /// Every entry's value has the shape its number of values calls for.
    pub closed spec fn wf(&self) -> bool {
        forall|i: int| 0 <= i < self.data.len() ==> #[trigger] self.data[i].1.wf()
    }
}


/// The first occurrence of `x` in `s` stands at `i`.
pub proof fn lemma_first_index<A>(s: Seq<A>, x: A, i: int)
    requires
        0 <= i < s.len(),
        s[i] == x,
        forall|j: int| 0 <= j < i ==> s[j] != x,
    ensures
        s.index_of_first(x) == Some(i),
{
    s.index_of_first_ensures(x);
    match s.index_of_first(x) {
        Some(k) => {
            assert(!(k < i));
            assert(!(i < k));
        },
        None => {
            assert(s.contains(x));
        },
    }
}

/// How `split_pair` changes when the segment grows by one character.
pub proof fn lemma_split_pair_push(seg: Seq<char>, c: char)
    ensures
        !seg.contains(KEY_VALUE_SEPARATOR) ==> split_pair(seg) == (seg, Seq::<char>::empty()),
        split_pair(seg.push(c)) == if seg.contains(KEY_VALUE_SEPARATOR) {
            (split_pair(seg).0, split_pair(seg).1.push(c))
        } else if c == KEY_VALUE_SEPARATOR {
            (seg, Seq::empty())
        } else {
            (seg.push(c), Seq::empty())
        },
{
    let t = seg.push(c);
    seg.index_of_first_ensures(KEY_VALUE_SEPARATOR);
    t.index_of_first_ensures(KEY_VALUE_SEPARATOR);
    match seg.index_of_first(KEY_VALUE_SEPARATOR) {
        Some(i) => {
            lemma_first_index(t, KEY_VALUE_SEPARATOR, i);
            assert(t.subrange(0, i) =~= seg.subrange(0, i));
            assert(t.subrange(i + 1, t.len() as int) =~= seg.subrange(i + 1, seg.len() as int).push(
                c,
            ));
        },
        None => {
            if c == KEY_VALUE_SEPARATOR {
                lemma_first_index(t, KEY_VALUE_SEPARATOR, seg.len() as int);
                assert(t.subrange(0, seg.len() as int) =~= seg);
                assert(t.subrange(seg.len() as int + 1, t.len() as int) =~= Seq::<char>::empty());
            } else {
                assert forall|j: int| 0 <= j < t.len() implies t[j] != KEY_VALUE_SEPARATOR by {
                    if j < seg.len() {
                        assert(seg[j] == t[j]);
                    }
                }
                if t.contains(KEY_VALUE_SEPARATOR) {
                    let j = choose|j: int| 0 <= j < t.len() && t[j] == KEY_VALUE_SEPARATOR;
                    assert(t[j] != KEY_VALUE_SEPARATOR);
                }
            }
        },
    }
}

impl QueryString {
    /// Where `key` has its entry, if it has one.
    fn position(&self, key: &String) -> (r: Option<usize>)
        ensures
            match r {
                Some(j) => keys(self@).index_of_first(key@) == Some(j as int),
                None => keys(self@).index_of_first(key@) is None,
            },
    {
        let mut j: usize = 0;
        while j < self.data.len()
            invariant
                j <= self.data.len(),
                forall|m: int| 0 <= m < j ==> keys(self@)[m] != key@,
            decreases self.data.len() - j,
        {
            if self.data[j].0 == *key {
                proof {
                    lemma_first_index(keys(self@), key@, j as int);
                }
                return Some(j);
            }
            j += 1;
        }
        proof {
            keys(self@).index_of_first_ensures(key@);
        }
        None
    }

    /// Records `val` under `key`.
    fn add(&mut self, key: String, val: String)
        requires
            old(self).wf(),
        ensures
            final(self).wf(),
            final(self)@ == add_value(old(self)@, key@, val@),
    {
        match self.position(&key) {
            Some(j) => {
                proof {
                    keys(self@).index_of_first_ensures(key@);
                    assert(keys(self@).len() == self.data.len());
                    assert(self.data[j as int].1.wf());
                }
                let (k, v) = self.data.remove(j);
                let ghost before = v@;
                let nv = match v {
                    Value::Single(p) => Value::Multiple(vec![p, val]),
                    Value::Multiple(mut vs) => {
                        vs.push(val);
                        Value::Multiple(vs)
                    },
                };
                assert(nv@ =~= before.push(val@));
                assert(nv.wf());
                self.data.insert(j, (k, nv));
                assert(self.data@ =~= old(self).data@.update(j as int, (k, nv)));
                assert(self@ =~= add_value(old(self)@, key@, val@));
            },
            None => {
                self.data.push((key, Value::Single(val)));
                assert(self@ =~= add_value(old(self)@, key@, val@));
            },
        }
    }

    /// Parses `s`: splits it at every `&`, splits each segment at its first
    /// `=`, and records the values of each key in order of appearance.
    pub fn from(s: &str) -> (r: QueryString)
        ensures
            r.wf(),
            r@ == parse_table(s@),
    {
        let mut table = QueryString { data: Vec::new() };
        let mut key = String::new();
        let mut val = String::new();
        let mut seen_eq = false;
        let ghost mut start: int = 0;
        let ghost mut done: Seq<Seq<char>> = Seq::empty();
        proof {
            assert(s@.subrange(0, 0) =~= Seq::<char>::empty());
            assert(segments(Seq::<char>::empty()) =~= done.push(Seq::<char>::empty()));
            lemma_split_empty();
            assert(table@ =~= table_of(pairs_of(done)));
        }
        for c in it: s.chars()
            invariant
                it.seq() == s@,
                0 <= start <= it.index() <= s@.len(),
                segments(s@.subrange(0, it.index() as int)) == done.push(
                    s@.subrange(start, it.index() as int),
                ),
                (key@, val@) == split_pair(s@.subrange(start, it.index() as int)),
                table.wf(),
                seen_eq == s@.subrange(start, it.index() as int).contains(KEY_VALUE_SEPARATOR),
                table@ == table_of(pairs_of(done)),
        {
            let ghost i = it.index() as int;
            let ghost cur = s@.subrange(start, i);
            proof {
                assert(s@.subrange(0, i + 1).drop_last() =~= s@.subrange(0, i));
                assert(s@[i] == c);
                lemma_split_pair_push(cur, c);
                assert(s@.subrange(start, i + 1) =~= cur.push(c));
            }
            if c == PAIR_SEPARATOR {
                proof {
                    lemma_table_of_push(done, cur);
                }
                table.add(key, val);
                key = String::new();
                val = String::new();
                seen_eq = false;
                proof {
                    done = done.push(cur);
                    start = i + 1;
                    assert(s@.subrange(start, i + 1) =~= Seq::<char>::empty());
                    lemma_split_empty();
                    assert((key@, val@) == split_pair(s@.subrange(start, i + 1)));
                }
            } else {
                if seen_eq {
                    val.push(c);
                } else if c == KEY_VALUE_SEPARATOR {
                    seen_eq = true;
                } else {
                    key.push(c);
                }
                proof {
                    assert((key@, val@) == split_pair(cur.push(c)));
                    assert(done.push(cur).update(done.len() as int, cur.push(c)) =~= done.push(
                        cur.push(c),
                    ));
                    if !cur.contains(KEY_VALUE_SEPARATOR) && c == KEY_VALUE_SEPARATOR {
                        assert(cur.push(c)[cur.len() as int] == c);
                    }
                    if cur.contains(KEY_VALUE_SEPARATOR) {
                        let j = choose|j: int| 0 <= j < cur.len() && cur[j] == KEY_VALUE_SEPARATOR;
                        assert(cur.push(c)[j] == KEY_VALUE_SEPARATOR);
                    }
                    if !cur.contains(KEY_VALUE_SEPARATOR) && c != KEY_VALUE_SEPARATOR {
                        if cur.push(c).contains(KEY_VALUE_SEPARATOR) {
                            let j = choose|j: int|
                                0 <= j < cur.len() + 1 && cur.push(c)[j] == KEY_VALUE_SEPARATOR;
                            assert(cur[j] == KEY_VALUE_SEPARATOR);
                        }
                    }
                }
            }
        }
        proof {
            assert(s@.subrange(0, s@.len() as int) =~= s@);
            lemma_table_of_push(done, s@.subrange(start, s@.len() as int));
        }
        table.add(key, val);
        table
    }

    /// The value or values recorded under `key`, if it appeared.
    pub fn get(&self, key: &str) -> (r: Option<&Value>)
        requires
            self.wf(),
        ensures
            match r {
                Some(v) => lookup(self@, key@) == Some(v@) && v.wf(),
                None => lookup(self@, key@) is None,
            },
    {
        let k = key.to_owned();
        match self.position(&k) {
            Some(j) => {
                proof {
                    keys(self@).index_of_first_ensures(k@);
                    assert(self.data[j as int].1.wf());
                }
                Some(&self.data[j].1)
            },
            None => None,
        }
    }

    /// How many distinct keys the table holds.
    pub fn len(&self) -> (r: usize)
        ensures
            r == self@.len(),
    {
        self.data.len()
    }

    /// The keys, in the order they first appeared.
    pub fn keys(&self) -> (r: Vec<String>)
        ensures
            r@.map_values(|k: String| k@) == keys(self@),
    {
        let mut r: Vec<String> = Vec::new();
        for j in 0..self.data.len()
            invariant
                r@.map_values(|k: String| k@) == keys(self@).subrange(0, j as int),
                keys(self@).len() == self.data.len(),
        {
            assert(keys(self@)[j as int] == self.data[j as int].0@);
            let ghost prev = r@;
            let c = self.data[j].0.clone();
            r.push(c);
            assert(r@.map_values(|k: String| k@) =~= prev.map_values(|k: String| k@).push(c@));
            assert(r@.map_values(|k: String| k@) =~= keys(self@).subrange(0, j + 1));
        }
        assert(keys(self@).subrange(0, self.data.len() as int) =~= keys(self@));
        r
    }
}

impl Value {
    /// The values in order of appearance, a single value as a list of one.
    pub fn values(&self) -> (r: Vec<String>)
        ensures
            r@.map_values(|x: String| x@) == self@,
    {
        match self {
            Value::Single(v) => {
                let r = vec![v.clone()];
                assert(r@.map_values(|x: String| x@) =~= self@);
                r
            },
            Value::Multiple(vs) => {
                let mut r: Vec<String> = Vec::new();
                for j in 0..vs.len()
                    invariant
                        self@ == vs@.map_values(|x: String| x@),
                        r@.map_values(|x: String| x@) == self@.subrange(0, j as int),
                {
                    let ghost prev = r@;
                    let c = vs[j].clone();
                    r.push(c);
                    assert(r@.map_values(|x: String| x@) =~= prev.map_values(|x: String| x@).push(
                        c@,
                    ));
                    assert(r@.map_values(|x: String| x@) =~= self@.subrange(0, j + 1));
                }
                assert(self@.subrange(0, vs.len() as int) =~= self@);
                r
            },
        }
    }
}

/// An empty segment is an empty key with an empty value.
proof fn lemma_split_empty()
    ensures
        split_pair(Seq::empty()) == (Seq::<char>::empty(), Seq::<char>::empty()),
{
    Seq::<char>::empty().index_of_first_ensures(KEY_VALUE_SEPARATOR);
}

/// Recording one more segment adds its pair to the table.
proof fn lemma_table_of_push(done: Seq<Seq<char>>, seg: Seq<char>)
    ensures
        table_of(pairs_of(done.push(seg))) == add_value(
            table_of(pairs_of(done)),
            split_pair(seg).0,
            split_pair(seg).1,
        ),
{
    assert(pairs_of(done.push(seg)).drop_last() =~= pairs_of(done));
}

} // verus!
