use toml::Value as TV;
use vstd::prelude::*;

verus! {

/// A TOML value as the configuration logic reads it.
///
/// Floats and date-times are never read by the configuration schema, so they
/// are kept as `Other`: they are replaced wholesale by a merge and refused by
/// the decoder wherever a value is expected.
pub enum TomlValue {
    Str(String),
    Int(i64),
    Bool(bool),
    Array(Vec<TomlValue>),
    Table(Vec<(String, TomlValue)>),
    Other,
}

/// The mathematical model of a TOML value.
pub enum Toml {
    Str(Seq<char>),
    Int(int),
    Bool(bool),
    Array(Seq<Toml>),
    Table(Seq<(Seq<char>, Toml)>),
    Other,
}

/// A table entry of the model.
pub type Entry = (Seq<char>, Toml);

pub open spec fn toml_view(v: TomlValue) -> Toml
    decreases v, 0int,
{
    match v {
        TomlValue::Str(s) => Toml::Str(s@),
        TomlValue::Int(i) => Toml::Int(i as int),
        TomlValue::Bool(b) => Toml::Bool(b),
        TomlValue::Array(a) => {
            proof {
                assert(decreases_to!(a => a@));
            }
            Toml::Array(array_view(a@))
        },
        TomlValue::Table(t) => {
            proof {
                assert(decreases_to!(t => t@));
            }
            Toml::Table(entries_view(t@))
        },
        TomlValue::Other => Toml::Other,
    }
}

pub open spec fn array_view(a: Seq<TomlValue>) -> Seq<Toml>
    decreases a, 0int,
{
    if a.len() == 0 {
        Seq::empty()
    } else {
        proof {
            assert(decreases_to!(a => a[a.len() - 1]));
        }
        array_view(a.subrange(0, a.len() - 1)).push(toml_view(a[a.len() - 1]))
    }
}

pub open spec fn entries_view(t: Seq<(String, TomlValue)>) -> Seq<Entry>
    decreases t, 0int,
{
    if t.len() == 0 {
        Seq::empty()
    } else {
        proof {
            assert(decreases_to!(t => t[t.len() - 1]));
        }
        entries_view(t.subrange(0, t.len() - 1)).push(
            (t[t.len() - 1].0@, toml_view(t[t.len() - 1].1)),
        )
    }
}

impl View for TomlValue {
    type V = Toml;

    open spec fn view(&self) -> Toml {
        toml_view(*self)
    }
}

/// The model of a sequence of values is taken element by element.
pub proof fn lemma_array_view(a: Seq<TomlValue>)
    ensures
        array_view(a).len() == a.len(),
        forall|i: int| 0 <= i < a.len() ==> #[trigger] array_view(a)[i] == toml_view(a[i]),
    decreases a.len(),
{
    if a.len() > 0 {
        lemma_array_view(a.subrange(0, a.len() - 1));
    }
}

/// The model of a sequence of entries is taken entry by entry.
pub proof fn lemma_entries_view(t: Seq<(String, TomlValue)>)
    ensures
        entries_view(t).len() == t.len(),
        forall|i: int|
            0 <= i < t.len() ==> #[trigger] entries_view(t)[i] == (t[i].0@, toml_view(t[i].1)),
    decreases t.len(),
{
    if t.len() > 0 {
        lemma_entries_view(t.subrange(0, t.len() - 1));
    }
}


/// `i` is the first position of key `k` in table `t`.
pub open spec fn first_key_at(t: Seq<Entry>, k: Seq<char>, i: int) -> bool {
    &&& 0 <= i < t.len()
    &&& t[i].0 == k
    &&& forall|j: int| 0 <= j < i ==> t[j].0 != k
}

/// The first position of key `k` in table `t`, if any.
pub open spec fn key_index(t: Seq<Entry>, k: Seq<char>) -> Option<int> {
    if exists|i: int| first_key_at(t, k, i) {
        Some(choose|i: int| first_key_at(t, k, i))
    } else {
        None
    }
}

/// The value a table gives for key `k` (its first occurrence).
pub open spec fn lookup(t: Seq<Entry>, k: Seq<char>) -> Option<Toml> {
    match key_index(t, k) {
        Some(i) => Some(t[i].1),
        None => None,
    }
}

/// No key occurs twice in the table.
pub open spec fn keys_unique(t: Seq<Entry>) -> bool {
    forall|i: int, j: int| 0 <= i < t.len() && 0 <= j < t.len() && i != j ==> t[i].0 != t[j].0
}

/// Recursively merge `over` into `base`: tables merge key by key, every other
/// value (arrays included) is replaced by `over`.
pub open spec fn merge(base: Toml, over: Toml) -> Toml
    decreases over, 0int,
{
    match over {
        Toml::Table(o) => match base {
            Toml::Table(b) => Toml::Table(merge_entries(b, o)),
            _ => over,
        },
        _ => over,
    }
}

/// Merge the entries of `o`, first to last, into table `b`.
pub open spec fn merge_entries(b: Seq<Entry>, o: Seq<Entry>) -> Seq<Entry>
    decreases o, 0int,
{
    if o.len() == 0 {
        b
    } else {
        proof {
            assert(decreases_to!(o => o[0]));
            assert(decreases_to!(o => o.subrange(1, o.len() as int)));
        }
        merge_entries(insert_merge(b, o[0].0, o[0].1), o.subrange(1, o.len() as int))
    }
}

/// Merge `v` into the entry for `k`, or append `(k, v)` when `k` is new.
pub open spec fn insert_merge(t: Seq<Entry>, k: Seq<char>, v: Toml) -> Seq<Entry>
    decreases v, 1int,
{
    match key_index(t, k) {
        Some(i) => t.update(i, (k, merge(t[i].1, v))),
        None => t.push((k, v)),
    }
}

pub proof fn lemma_key_index_found(t: Seq<Entry>, k: Seq<char>, i: int)
    requires
        first_key_at(t, k, i),
    ensures
        key_index(t, k) == Some(i),
{
    let c = choose|j: int| first_key_at(t, k, j);
    assert(first_key_at(t, k, c));
    if c < i {
        assert(t[c].0 != k);
    } else if c > i {
        assert(t[i].0 != k);
    }
}

pub proof fn lemma_key_index_absent(t: Seq<Entry>, k: Seq<char>)
    requires
        forall|j: int| 0 <= j < t.len() ==> t[j].0 != k,
    ensures
        key_index(t, k) is None,
{
}

/// Facts on the first position of a key.
pub proof fn lemma_key_index_some(t: Seq<Entry>, k: Seq<char>)
    ensures
        key_index(t, k) matches Some(i) ==> first_key_at(t, k, i),
        key_index(t, k) is None ==> forall|j: int| 0 <= j < t.len() ==> t[j].0 != k,
{
    if key_index(t, k) is None {
        assert forall|j: int| 0 <= j < t.len() implies t[j].0 != k by {
            if t[j].0 == k {
                let m = choose_first_key(t, k, j);
                assert(first_key_at(t, k, m));
            }
        }
    }
}

/// A key that occurs at or before `j` has a first occurrence.
proof fn choose_first_key(t: Seq<Entry>, k: Seq<char>, j: int) -> (m: int)
    requires
        0 <= j < t.len(),
        t[j].0 == k,
    ensures
        first_key_at(t, k, m),
    decreases j,
{
    if exists|i: int| 0 <= i < j && t[i].0 == k {
        let i = choose|i: int| 0 <= i < j && t[i].0 == k;
        choose_first_key(t, k, i)
    } else {
        j
    }
}

/// Looking up a key after an entry was merged or appended for another key.
proof fn lemma_lookup_insert_merge_other(t: Seq<Entry>, k: Seq<char>, v: Toml, q: Seq<char>)
    requires
        q != k,
    ensures
        lookup(insert_merge(t, k, v), q) == lookup(t, q),
{
    lemma_key_index_some(t, k);
    lemma_key_index_some(t, q);
    let t2 = insert_merge(t, k, v);
    assert(forall|j: int| 0 <= j < t.len() ==> #[trigger] t2[j].0 == t[j].0);
    match key_index(t, q) {
        Some(i) => {
            assert(first_key_at(t2, q, i));
            lemma_key_index_found(t2, q, i);
        },
        None => {
            assert forall|j: int| 0 <= j < t2.len() implies t2[j].0 != q by {
                if j < t.len() {
                } else {
                    assert(t2[j].0 == k);
                }
            }
            lemma_key_index_absent(t2, q);
        },
    }
}

/// Looking up the key an entry was merged or appended for.
proof fn lemma_lookup_insert_merge_same(t: Seq<Entry>, k: Seq<char>, v: Toml)
    ensures
        lookup(insert_merge(t, k, v), k) == match lookup(t, k) {
            Some(x) => Some(merge(x, v)),
            None => Some(v),
        },
{
    lemma_key_index_some(t, k);
    let t2 = insert_merge(t, k, v);
    match key_index(t, k) {
        Some(i) => {
            assert(first_key_at(t2, k, i));
            lemma_key_index_found(t2, k, i);
        },
        None => {
            assert(first_key_at(t2, k, t.len() as int));
            lemma_key_index_found(t2, k, t.len() as int);
        },
    }
}

/// Merging tables, key by key: a key the overlay leaves out keeps the base's
/// value, a key only the overlay has takes the overlay's value, and a key both
/// have takes the merge of the two values.
pub proof fn lemma_merge_entries_lookup(b: Seq<Entry>, o: Seq<Entry>, q: Seq<char>)
    requires
        keys_unique(o),
    ensures
        lookup(merge_entries(b, o), q) == match (lookup(b, q), lookup(o, q)) {
            (x, None) => x,
            (None, Some(v)) => Some(v),
            (Some(x), Some(v)) => Some(merge(x, v)),
        },
    decreases o.len(),
{
    if o.len() == 0 {
        lemma_key_index_some(o, q);
    } else {
        let rest = o.subrange(1, o.len() as int);
        let b1 = insert_merge(b, o[0].0, o[0].1);
        assert(keys_unique(rest));
        lemma_merge_entries_lookup(b1, rest, q);
        lemma_key_index_some(o, q);
        lemma_key_index_some(rest, q);
        if q == o[0].0 {
            lemma_key_index_found(o, q, 0);
            assert forall|j: int| 0 <= j < rest.len() implies rest[j].0 != q by {
                assert(o[j + 1].0 != o[0].0);
            }
            lemma_key_index_absent(rest, q);
            lemma_lookup_insert_merge_same(b, q, o[0].1);
        } else {
            lemma_lookup_insert_merge_other(b, o[0].0, o[0].1, q);
            match key_index(rest, q) {
                Some(i) => {
                    assert(first_key_at(o, q, i + 1));
                    lemma_key_index_found(o, q, i + 1);
                },
                None => {
                    assert forall|j: int| 0 <= j < o.len() implies o[j].0 != q by {
                        if j > 0 {
                            assert(rest[j - 1].0 != q);
                        }
                    }
                    lemma_key_index_absent(o, q);
                },
            }
        }
    }
}

/// A value that is not a table, or a table laid over a value that is not one,
/// replaces the base outright.
pub proof fn lemma_merge_replaces(base: Toml, over: Toml)
    requires
        !(base is Table && over is Table),
    ensures
        merge(base, over) == over,
{
}


/// The position of the first entry of `t` whose key is `k`.
fn find_key(t: &Vec<(String, TomlValue)>, k: &String) -> (r: Option<usize>)
    ensures
        key_index(entries_view(t@), k@) == match r {
            Some(i) => Some(i as int),
            None => None::<int>,
        },
{
    proof {
        lemma_entries_view(t@);
    }
    let ghost tv = entries_view(t@);
    let mut i: usize = 0;
    while i < t.len()
        invariant
            i <= t@.len(),
            tv == entries_view(t@),
            tv.len() == t@.len(),
            forall|j: int| 0 <= j < t@.len() ==> #[trigger] tv[j].0 == t@[j].0@,
            forall|j: int| 0 <= j < i ==> tv[j].0 != k@,
        decreases t.len() - i,
    {
        if t[i].0 == *k {
            proof {
                assert(first_key_at(tv, k@, i as int));
                lemma_key_index_found(tv, k@, i as int);
            }
            return Some(i);
        }
        i = i + 1;
    }
    proof {
        lemma_key_index_absent(tv, k@);
    }
    None
}

/// Merge the entries of `o`, first to last, into table `b` (see `merge_entries`).
fn merge_table(b: Vec<(String, TomlValue)>, o: Vec<(String, TomlValue)>) -> (r: Vec<
    (String, TomlValue),
>)
    ensures
        entries_view(r@) == merge_entries(entries_view(b@), entries_view(o@)),
    decreases o, 2int,
{
    let ghost o0 = o;
    let ghost target = merge_entries(entries_view(b@), entries_view(o@));
    let mut acc = b;
    let mut rest = o;
    let ghost mut start: int = 0;
    proof {
        assert(decreases_to!(o0 => o0@));
        assert(rest@ == o0@.subrange(0, o0@.len() as int));
    }
    while rest.len() > 0
        invariant
            o0 == o,
            0 <= start <= o0@.len(),
            rest@ == o0@.subrange(start, o0@.len() as int),
            decreases_to!(o0 => o0@),
            merge_entries(entries_view(acc@), entries_view(rest@)) == target,
        decreases rest.len(),
    {
        proof {
            lemma_entries_view(rest@);
            lemma_entries_view(rest@.subrange(1, rest@.len() as int));
            assert(decreases_to!(o0@ => o0@[start]));
            assert(o0@[start] == rest@[0]);
            let rv = entries_view(rest@);
            assert(entries_view(rest@.subrange(1, rest@.len() as int)) =~= rv.subrange(
                1,
                rv.len() as int,
            ));
        }
        let (k, v) = rest.remove(0);
        proof {
            assert(decreases_to!(o0 => v));
            start = start + 1;
            assert(rest@ =~= o0@.subrange(start, o0@.len() as int));
        }
        acc = insert_merge_exec(acc, k, v, Ghost(o0));
    }
    proof {
        lemma_entries_view(rest@);
    }
    acc
}

/// Merge `v` into the entry for `k`, or append `(k, v)` (see `insert_merge`).
fn insert_merge_exec(
    t: Vec<(String, TomlValue)>,
    k: String,
    v: TomlValue,
    Ghost(bound): Ghost<Vec<(String, TomlValue)>>,
) -> (r: Vec<(String, TomlValue)>)
    requires
        decreases_to!(bound => v),
    ensures
        entries_view(r@) == insert_merge(entries_view(t@), k@, v@),
    decreases bound, 1int,
{
    proof {
        lemma_entries_view(t@);
    }
    let ghost t0 = t@;
    let mut t = t;
    match find_key(&t, &k) {
        Some(i) => {
            let (bk, bv) = t.remove(i);
            let m = merge_value(bv, v);
            t.insert(i, (bk, m));
            proof {
                lemma_entries_view(t@);
                assert(entries_view(t@) =~= insert_merge(entries_view(t0), k@, v@));
            }
            t
        },
        None => {
            t.push((k, v));
            proof {
                lemma_entries_view(t@);
            }
            t
        },
    }
}

/// Recursively merge `over` into `base`: tables merge key by key; all other
/// values (including arrays) are replaced by `over`.
pub fn merge_value(base: TomlValue, over: TomlValue) -> (r: TomlValue)
    ensures
        r@ == merge(base@, over@),
    decreases over, 0int,
{
    match over {
        TomlValue::Table(o) => match base {
            TomlValue::Table(b) => TomlValue::Table(merge_table(b, o)),
            _ => TomlValue::Table(o),
        },
        _ => over,
    }
}


/// Every table inside `t`, at any depth, has distinct keys.
pub open spec fn well_keyed(t: Toml) -> bool
    decreases t, 0int,
{
    match t {
        Toml::Array(a) => array_well_keyed(a),
        Toml::Table(es) => keys_unique(es) && entries_well_keyed(es),
        _ => true,
    }
}

pub open spec fn array_well_keyed(a: Seq<Toml>) -> bool
    decreases a, 0int,
{
    if a.len() == 0 {
        true
    } else {
        proof {
            assert(decreases_to!(a => a[a.len() - 1]));
        }
        array_well_keyed(a.subrange(0, a.len() - 1)) && well_keyed(a[a.len() - 1])
    }
}

pub open spec fn entries_well_keyed(es: Seq<Entry>) -> bool
    decreases es, 0int,
{
    if es.len() == 0 {
        true
    } else {
        proof {
            assert(decreases_to!(es => es[es.len() - 1]));
        }
        entries_well_keyed(es.subrange(0, es.len() - 1)) && well_keyed(es[es.len() - 1].1)
    }
}

#[verifier::external_type_specification]
#[verifier::external_body]
pub struct ExTomlValue(toml::Value);

#[verifier::external_type_specification]
#[verifier::external_body]
pub struct ExTomlError(toml::de::Error);

/// The document that the `toml` crate parses `text` into, as a model value;
/// `None` where it refuses the text.
pub uninterp spec fn toml_document(text: Seq<char>) -> Option<Toml>;

/// Parses a TOML document with `<toml::Table as FromStr>::from_str`.
///
/// Trusted: the result is the named document of `text`; a parsed document is
/// a table whose tables, at every depth, have distinct keys (the crate keeps
/// them in a map).
#[verifier::external_body]
pub fn parse_document(text: &str) -> (r: Result<TomlValue, toml::de::Error>)
    ensures
        match r {
            Ok(v) => toml_document(text@) == Some(v@) && v@ is Table && well_keyed(v@),
            Err(_) => toml_document(text@) is None,
        },
{
    match text.parse::<toml::Table>() {
        Ok(table) => Ok(from_toml(toml::Value::Table(table))),
        Err(e) => Err(e),
    }
}

/// Converts a `toml::Value` into a `TomlValue`, variant for variant; floats
/// and date-times become `Other`.
#[verifier::external_body]
fn from_toml(v: TV) -> TomlValue {
    match v {
        TV::String(s) => TomlValue::Str(s),
        TV::Integer(i) => TomlValue::Int(i),
        TV::Boolean(b) => TomlValue::Bool(b),
        TV::Array(a) => TomlValue::Array(a.into_iter().map(from_toml).collect()),
        TV::Table(t) => TomlValue::Table(t.into_iter().map(|(k, v)| (k, from_toml(v))).collect()),
        TV::Float(_) | TV::Datetime(_) => TomlValue::Other,
    }
}

} // verus!
