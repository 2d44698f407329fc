use vstd::map::*;
use vstd::prelude::*;

verus! {

/// Error returned by the fallible accessor [`get_var`] when a variable is
/// not present in the table.
#[derive(Debug, Clone, Copy, PartialEq, Eq)]
pub enum VarError {
    NotPresent,
}

/// Applies a sequence of key/value pairs to a map in order: later pairs
/// override earlier ones, and both override whatever the map already held.
pub open spec fn with_pairs(
    m: Map<Seq<char>, Seq<char>>,
    ps: Seq<(Seq<char>, Seq<char>)>,
) -> Map<Seq<char>, Seq<char>>
    decreases ps.len(),
{
    if ps.len() == 0 {
        m
    } else {
        with_pairs(m, ps.drop_last()).insert(ps.last().0, ps.last().1)
    }
}

/// The value the last pair with key `k` carries, if any pair has key `k`.
pub open spec fn last_value_of(ps: Seq<(Seq<char>, Seq<char>)>, k: Seq<char>) -> Option<Seq<char>>
    decreases ps.len(),
{
    if ps.len() == 0 {
        None
    } else if ps.last().0 == k {
        Some(ps.last().1)
    } else {
        last_value_of(ps.drop_last(), k)
    }
}

/// The views of a sequence of owned string pairs.
pub open spec fn string_pairs_view(ps: Seq<(String, String)>) -> Seq<(Seq<char>, Seq<char>)> {
    ps.map_values(|p: (String, String)| (p.0@, p.1@))
}

/// The views of a sequence of borrowed string pairs.
pub open spec fn str_pairs_view(ps: Seq<(&str, &str)>) -> Seq<(Seq<char>, Seq<char>)> {
    ps.map_values(|p: (&str, &str)| (p.0@, p.1@))
}

/// No two pairs carry the same key.
pub open spec fn pairs_unique(s: Seq<(String, String)>) -> bool {
    forall|i: int, j: int| 0 <= i < j < s.len() ==> s[i].0@ != s[j].0@
}

/// Batch-write law: what a pair sequence leaves at key `k` is the value of
/// the last pair with that key; a key no pair carries keeps the value the
/// map held before, and is present afterwards exactly if it was before.
pub proof fn lemma_with_pairs_get(
    m: Map<Seq<char>, Seq<char>>,
    ps: Seq<(Seq<char>, Seq<char>)>,
    k: Seq<char>,
)
    ensures
        ({
            let r = with_pairs(m, ps);
            match last_value_of(ps, k) {
                Some(v) => r.contains_key(k) && r[k] == v,
                None => (r.contains_key(k) <==> m.contains_key(k)) && (m.contains_key(k)
                    ==> r[k] == m[k]),
            }
        }),
    decreases ps.len(),
{
    if ps.len() > 0 {
        lemma_with_pairs_get(m, ps.drop_last(), k);
    }
}

/// A table of environment variables: the process environment modeled as an
/// explicit value, so that reads and writes can be specified exactly. It
/// holds at most one value per name; its view is the map from variable
/// names to values.
pub struct EnvTable {
    entries: Vec<(String, String)>,
}

impl View for EnvTable {
    type V = Map<Seq<char>, Seq<char>>;

    closed spec fn view(&self) -> Map<Seq<char>, Seq<char>> {
        with_pairs(Map::empty(), string_pairs_view(self.entries@))
    }
}

impl EnvTable {
    /// The table's invariant: each name appears at most once.
    pub closed spec fn wf(&self) -> bool {
        pairs_unique(self.entries@)
    }

    /// An empty table.
    pub fn new() -> (r: EnvTable)
        ensures
            r.wf(),
            r@ == Map::<Seq<char>, Seq<char>>::empty(),
    {
        EnvTable { entries: Vec::new() }
    }

    /// A table holding the given pairs; later pairs override earlier ones
    /// when names repeat.
    pub fn from_pairs(pairs: Vec<(String, String)>) -> (r: EnvTable)
        ensures
            r.wf(),
            r@ == with_pairs(Map::<Seq<char>, Seq<char>>::empty(), string_pairs_view(pairs@)),
    {
        let mut table = EnvTable::new();
        let mut i: usize = 0;
        while i < pairs.len()
            invariant
                i <= pairs.len(),
                table.wf(),
                table@ == with_pairs(
                    Map::<Seq<char>, Seq<char>>::empty(),
                    string_pairs_view(pairs@).subrange(0, i as int),
                ),
            decreases pairs.len() - i,
        {
            set_var(&mut table, pairs[i].0.as_str(), pairs[i].1.as_str());
            proof {
                let ps = string_pairs_view(pairs@);
                assert(ps.subrange(0, i + 1 as int).drop_last() =~= ps.subrange(0, i as int));
                assert(ps.subrange(0, i + 1 as int).last() == ps[i as int]);
            }
            i = i + 1;
        }
        proof {
            assert(string_pairs_view(pairs@).subrange(0, pairs@.len() as int) =~= string_pairs_view(
                pairs@,
            ));
        }
        table
    }
}

/// String equality over views: the executable comparison agrees with
/// equality of the character sequences.
pub(crate) fn str_eq(a: &str, b: &str) -> (r: bool)
    ensures
        r == (a@ == b@),
{
    let sa = a.to_owned();
    let sb = b.to_owned();
    sa == sb
}

/// The index of the entry carrying `name`, if the table has one.
fn find_key(entries: &Vec<(String, String)>, name: &str) -> (r: Option<usize>)
    ensures
        match r {
            Some(i) => i < entries@.len() && entries@[i as int].0@ == name@,
            None => forall|j: int| 0 <= j < entries@.len() ==> entries@[j].0@ != name@,
        },
{
    let mut i: usize = 0;
    while i < entries.len()
        invariant
            i <= entries.len(),
            forall|j: int| 0 <= j < i ==> entries@[j].0@ != name@,
        decreases entries.len() - i,
    {
        if str_eq(entries[i].0.as_str(), name) {
            return Some(i);
        }
        i = i + 1;
    }
    None
}

/// With unique keys, the entry at index `i` is the last (and only) pair
/// carrying its key.
proof fn lemma_unique_index_last_value(s: Seq<(String, String)>, k: Seq<char>, i: int)
    requires
        pairs_unique(s),
        0 <= i < s.len(),
        s[i].0@ == k,
    ensures
        last_value_of(string_pairs_view(s), k) == Some(s[i].1@),
    decreases s.len(),
{
    let v = string_pairs_view(s);
    if i == s.len() - 1 {
        assert(v.last() == (s[i].0@, s[i].1@));
    } else {
        assert(s.last().0@ != k);
        assert(string_pairs_view(s.drop_last()) =~= v.drop_last());
        lemma_unique_index_last_value(s.drop_last(), k, i);
    }
}

/// A key no entry carries has no last value.
proof fn lemma_absent_last_value(s: Seq<(String, String)>, k: Seq<char>)
    requires
        forall|j: int| 0 <= j < s.len() ==> s[j].0@ != k,
    ensures
        last_value_of(string_pairs_view(s), k) is None,
    decreases s.len(),
{
    if s.len() > 0 {
        assert(string_pairs_view(s.drop_last()) =~= string_pairs_view(s).drop_last());
        lemma_absent_last_value(s.drop_last(), k);
    }
}

/// Replacing the entry at `i` by a pair with the same key turns the
/// table's map into an insert of that pair.
proof fn lemma_update_entry(s: Seq<(String, String)>, i: int, p: (String, String))
    requires
        pairs_unique(s),
        0 <= i < s.len(),
        s[i].0@ == p.0@,
    ensures
        pairs_unique(s.update(i, p)),
        with_pairs(Map::empty(), string_pairs_view(s.update(i, p))) == with_pairs(
            Map::empty(),
            string_pairs_view(s),
        ).insert(p.0@, p.1@),
{
    let s2 = s.update(i, p);
    assert forall|a: int, b: int| 0 <= a < b < s2.len() implies s2[a].0@ != s2[b].0@ by {
        assert(s2[a].0@ == s[a].0@);
        assert(s2[b].0@ == s[b].0@);
    }
    let m1 = with_pairs(Map::<Seq<char>, Seq<char>>::empty(), string_pairs_view(s2));
    let m2 = with_pairs(Map::<Seq<char>, Seq<char>>::empty(), string_pairs_view(s)).insert(
        p.0@,
        p.1@,
    );
    assert_maps_equal!(m1, m2, k => {
        lemma_with_pairs_get(Map::empty(), string_pairs_view(s2), k);
        lemma_with_pairs_get(Map::empty(), string_pairs_view(s), k);
        if k == p.0@ {
            lemma_unique_index_last_value(s2, k, i);
            lemma_unique_index_last_value(s, k, i);
        } else {
            if exists|j: int| 0 <= j < s.len() && s[j].0@ == k {
                let j = choose|j: int| 0 <= j < s.len() && s[j].0@ == k;
                assert(j != i);
                assert(s2[j] == s[j]);
                lemma_unique_index_last_value(s, k, j);
                lemma_unique_index_last_value(s2, k, j);
            } else {
                assert(forall|j: int| 0 <= j < s2.len() ==> s2[j].0@ != k);
                lemma_absent_last_value(s, k);
                lemma_absent_last_value(s2, k);
            }
        }
    });
}

/// Appending a pair whose key no entry carries turns the table's map into
/// an insert of that pair.
proof fn lemma_push_entry(s: Seq<(String, String)>, p: (String, String))
    requires
        pairs_unique(s),
        forall|j: int| 0 <= j < s.len() ==> s[j].0@ != p.0@,
    ensures
        pairs_unique(s.push(p)),
        with_pairs(Map::empty(), string_pairs_view(s.push(p))) == with_pairs(
            Map::empty(),
            string_pairs_view(s),
        ).insert(p.0@, p.1@),
{
    let s2 = s.push(p);
    assert(string_pairs_view(s2).drop_last() =~= string_pairs_view(s));
    assert(string_pairs_view(s2).last() == (p.0@, p.1@));
}

/// Writes one variable, overriding any existing value for that name.
pub fn set_var(table: &mut EnvTable, name: &str, value: &str)
    requires
        old(table).wf(),
    ensures
        final(table).wf(),
        final(table)@ == old(table)@.insert(name@, value@),
{
    let pair = (name.to_owned(), value.to_owned());
    match find_key(&table.entries, name) {
        Some(i) => {
            proof {
                lemma_update_entry(table.entries@, i as int, pair);
            }
            table.entries[i] = pair;
        },
        None => {
            proof {
                lemma_push_entry(table.entries@, pair);
            }
            table.entries.push(pair);
        },
    }
}

/// Writes each pair in order: later pairs override earlier ones when names
/// repeat.
pub fn set_vars(table: &mut EnvTable, vars: Vec<(&str, &str)>)
    requires
        old(table).wf(),
    ensures
        final(table).wf(),
        final(table)@ == with_pairs(old(table)@, str_pairs_view(vars@)),
{
    let ghost m0 = table@;
    let mut i: usize = 0;
    while i < vars.len()
        invariant
            i <= vars.len(),
            table.wf(),
            table@ == with_pairs(m0, str_pairs_view(vars@).subrange(0, i as int)),
        decreases vars.len() - i,
    {
        set_var(table, vars[i].0, vars[i].1);
        proof {
            let ps = str_pairs_view(vars@);
            assert(ps.subrange(0, i + 1 as int).drop_last() =~= ps.subrange(0, i as int));
            assert(ps.subrange(0, i + 1 as int).last() == ps[i as int]);
        }
        i = i + 1;
    }
    proof {
        assert(str_pairs_view(vars@).subrange(0, vars@.len() as int) =~= str_pairs_view(vars@));
    }
}

/// Reads one variable; returns `Err(VarError::NotPresent)` exactly when
/// the table holds no value for that name.
pub fn get_var(table: &EnvTable, name: &str) -> (r: Result<String, VarError>)
    requires
        table.wf(),
    ensures
        table@.contains_key(name@) ==> r is Ok && r->Ok_0@ == table@[name@],
        !table@.contains_key(name@) ==> r == Result::<String, VarError>::Err(VarError::NotPresent),
{
    proof {
        lemma_with_pairs_get(Map::empty(), string_pairs_view(table.entries@), name@);
    }
    match find_key(&table.entries, name) {
        Some(i) => {
            proof {
                lemma_unique_index_last_value(table.entries@, name@, i as int);
            }
            Ok(table.entries[i].1.clone())
        },
        None => {
            proof {
                lemma_absent_last_value(table.entries@, name@);
            }
            Err(VarError::NotPresent)
        },
    }
}

/// Reads one variable that is required to be present.
pub fn var(table: &EnvTable, name: &str) -> (r: String)
    requires
        table.wf(),
        table@.contains_key(name@),
    ensures
        r@ == table@[name@],
{
    proof {
        lemma_with_pairs_get(Map::empty(), string_pairs_view(table.entries@), name@);
    }
    match find_key(&table.entries, name) {
        Some(i) => {
            proof {
                lemma_unique_index_last_value(table.entries@, name@, i as int);
            }
            table.entries[i].1.clone()
        },
        None => {
            proof {
                lemma_absent_last_value(table.entries@, name@);
                assert(false);
            }
            String::new()
        },
    }
}

/// Accessor duality: any result the fallible accessor can return and any
/// value the fatal accessor can return agree with the table. For a name
/// the table holds, both yield the stored value; for a name it does not,
/// the fallible accessor returns the not-found error, and the fatal
/// accessor's precondition excludes that case — its unverified front
/// aborts there with a message naming the variable.
pub proof fn lemma_accessor_duality(
    table: &EnvTable,
    name: &str,
    fallible: Result<String, VarError>,
    fatal: String,
)
    requires
        call_ensures(get_var, (table, name), fallible),
        call_ensures(var, (table, name), fatal),
    ensures
        table@.contains_key(name@) ==> fallible is Ok && fallible->Ok_0@ == table@[name@]
            && fatal@ == table@[name@],
        !table@.contains_key(name@) ==> fallible == Result::<String, VarError>::Err(
            VarError::NotPresent,
        ),
{
}

/// Snapshots every variable the table currently holds: each name once,
/// with its current value.
pub fn get_vars(table: &EnvTable) -> (r: Vec<(String, String)>)
    requires
        table.wf(),
    ensures
        pairs_unique(r@),
        with_pairs(Map::<Seq<char>, Seq<char>>::empty(), string_pairs_view(r@)) == table@,
{
    let mut r: Vec<(String, String)> = Vec::new();
    let mut i: usize = 0;
    while i < table.entries.len()
        invariant
            i <= table.entries.len(),
            r@ =~= table.entries@.subrange(0, i as int),
        decreases table.entries.len() - i,
    {
        r.push((table.entries[i].0.clone(), table.entries[i].1.clone()));
        i = i + 1;
    }
    proof {
        assert(r@ =~= table.entries@);
    }
    r
}

} // verus!
