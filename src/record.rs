use vstd::prelude::*;
use vstd::string::StringExecFns;
use crate::value::{Value, same_text};

verus! {

/// The map that a list of named entries stands for; a later entry under a
/// name hides an earlier one.
pub open spec fn map_of<V>(s: Seq<(String, V)>) -> Map<Seq<char>, V>
    decreases s.len(),
{
    if s.len() == 0 {
        Map::empty()
    } else {
        map_of(s.drop_last()).insert(s.last().0@, s.last().1)
    }
}

/// The names of a list of named entries, in order.
pub open spec fn names_of<V>(s: Seq<(String, V)>) -> Seq<Seq<char>> {
    s.map_values(|e: (String, V)| e.0@)
}

/// Entries after position `i` that do not carry name `n` do not change what
/// the map holds under `n`.
pub proof fn lemma_map_of_prefix<V>(s: Seq<(String, V)>, i: int, n: Seq<char>)
    requires
        0 <= i <= s.len(),
        forall|j: int| i <= j < s.len() ==> s[j].0@ != n,
    ensures
        map_of(s).contains_key(n) == map_of(s.take(i)).contains_key(n),
        map_of(s).contains_key(n) ==> map_of(s)[n] == map_of(s.take(i))[n],
    decreases s.len(),
{
    if s.len() > i {
        lemma_map_of_prefix(s.drop_last(), i, n);
        assert(s.drop_last().take(i) =~= s.take(i));
    } else {
        assert(s.take(i) =~= s);
    }
}

/// The keys of the map are the names of the entries.
pub proof fn lemma_map_of_keys<V>(s: Seq<(String, V)>, n: Seq<char>)
    ensures
        map_of(s).contains_key(n) == names_of(s).contains(n),
    decreases s.len(),
{
    if s.len() > 0 {
        lemma_map_of_keys(s.drop_last(), n);
        assert(names_of(s.drop_last()) =~= names_of(s).drop_last());
        if names_of(s).contains(n) && n != s.last().0@ {
            let j = choose|j: int| 0 <= j < names_of(s).len() && names_of(s)[j] == n;
            assert(names_of(s.drop_last())[j] == n);
        }
        if n == s.last().0@ {
            assert(names_of(s)[s.len() - 1] == n);
        }
    }
}

/// Finds the entry that `map_of(s)` takes for `name`: the last one carrying it.
pub fn find_entry<V>(s: &Vec<(String, V)>, name: &str) -> (r: Option<usize>)
    ensures
        match r {
            Some(i) => i < s@.len() && s@[i as int].0@ == name@ && map_of(s@).contains_key(name@)
                && map_of(s@)[name@] == s@[i as int].1,
            None => !map_of(s@).contains_key(name@),
        },
{
    let mut i: usize = s.len();
    while i > 0
        invariant
            i <= s@.len(),
            forall|j: int| i <= j < s@.len() ==> s@[j].0@ != name@,
        decreases i,
    {
        i = i - 1;
        if same_text(s[i].0.as_str(), name) {
            proof {
                lemma_map_of_prefix(s@, i + 1, name@);
                assert(s@.take(i + 1).drop_last() =~= s@.take(i as int));
            }
            return Some(i);
        }
    }
    proof {
        lemma_map_of_prefix(s@, 0, name@);
        assert(s@.take(0) =~= Seq::<(String, V)>::empty());
    }
    None
}

/// The columns and the first error of a builder fed the pairs
/// `(names[i], values[i])` in order, starting from an empty one.
pub open spec fn build_state(names: Seq<String>, values: Seq<Value>) -> (
    Map<Seq<char>, Value>,
    Option<RecordError>,
)
    decreases names.len(),
{
    if names.len() == 0 {
        (Map::empty(), None)
    } else {
        let n = names.len() - 1;
        let prev = build_state(names.drop_last(), values.take(n));
        let name = names[n];
        let v = values[n];
        if prev.0.contains_key(name@) {
            (
                prev.0,
                if prev.1 is Some {
                    prev.1
                } else {
                    Some(
                        RecordError::ColumnDefinedTwiceError {
                            column_name: name,
                            first_value: prev.0[name@],
                            second_value: v,
                        },
                    )
                },
            )
        } else {
            (prev.0.insert(name@, v), prev.1)
        }
    }
}

/// The characters of each string, in order.
pub open spec fn views_of(s: Seq<String>) -> Seq<Seq<char>> {
    s.map_values(|x: String| x@)
}

/// The columns that a builder gathers are the names it was fed.
pub proof fn lemma_build_state_domain(names: Seq<String>, values: Seq<Value>)
    requires
        names.len() <= values.len(),
    ensures
        build_state(names, values).0.dom() =~= views_of(names).to_set(),
    decreases names.len(),
{
    if names.len() > 0 {
        let n = names.len() - 1;
        lemma_build_state_domain(names.drop_last(), values.take(n));
        let vs = views_of(names);
        assert(views_of(names.drop_last()) =~= vs.drop_last());
        assert(vs =~= vs.drop_last().push(vs[n]));
        vs.drop_last().lemma_push_to_set_commute(vs[n]);
    } else {
        assert(views_of(names).to_set() =~= Set::empty());
    }
}

#[derive(Clone, Debug, PartialEq)]
pub enum RecordError {
    InvalidColumnNameError(String),
    ColumnDefinedTwiceError { column_name: String, first_value: Value, second_value: Value },
}

/// One row: a value for each column name.
#[derive(Debug)]
pub struct Record {
    values_map: Vec<(String, Value)>,
}

/// Builds a `Record` column by column; the first column given twice is
/// reported by `build`.
pub struct RecordBuilder {
    record: Record,
    error: Option<RecordError>,
}

impl View for Record {
    type V = Map<Seq<char>, Value>;

    closed spec fn view(&self) -> Map<Seq<char>, Value> {
        map_of(self.values_map@)
    }
}

impl RecordBuilder {
    /// The columns gathered so far.
    pub closed spec fn columns(&self) -> Map<Seq<char>, Value> {
        self.record@
    }

    /// The first error met so far.
    pub closed spec fn first_error(&self) -> Option<RecordError> {
        self.error
    }
}

/// The error for a missing column named `name`.
pub open spec fn is_invalid_column(e: RecordError, name: Seq<char>) -> bool {
    e matches RecordError::InvalidColumnNameError(n) && n@ == name
}

impl Record {
    pub fn new_builder() -> (r: RecordBuilder)
        ensures
            r.columns() == Map::<Seq<char>, Value>::empty(),
            r.first_error() is None,
    {
        RecordBuilder { record: Record { values_map: Vec::new() }, error: None }
    }

    pub fn get_value(&self, column_name: &str) -> (r: Result<&Value, RecordError>)
        ensures
            match r {
                Ok(v) => self@.contains_key(column_name@) && *v == self@[column_name@],
                Err(e) => !self@.contains_key(column_name@) && is_invalid_column(e, column_name@),
            },
    {
        match find_entry(&self.values_map, column_name) {
            Some(i) => Ok(&self.values_map[i].1),
            None => Err(RecordError::InvalidColumnNameError(String::from_str(column_name))),
        }
    }

    /// The values of the named columns, in the order asked; fails on the
    /// first name that the record lacks.
    pub fn get_values(&self, column_names: &Vec<&str>) -> (r: Result<Vec<Value>, RecordError>)
        ensures
            match r {
                Ok(vs) => {
                    &&& forall|i: int|
                        0 <= i < column_names@.len() ==> self@.contains_key(column_names@[i]@)
                    &&& vs@.len() == column_names@.len()
                    &&& forall|i: int|
                        0 <= i < column_names@.len() ==> vs@[i] == self@[column_names@[i]@]
                },
                Err(e) => exists|i: int|
                    0 <= i < column_names@.len() && !self@.contains_key(column_names@[i]@) && (
                    forall|j: int| 0 <= j < i ==> self@.contains_key(column_names@[j]@))
                        && is_invalid_column(e, column_names@[i]@),
            },
    {
        let mut out: Vec<Value> = Vec::new();
        let mut i: usize = 0;
        while i < column_names.len()
            invariant
                i <= column_names@.len(),
                out@.len() == i,
                forall|j: int| 0 <= j < i ==> self@.contains_key(column_names@[j]@),
                forall|j: int| 0 <= j < i ==> out@[j] == self@[column_names@[j]@],
            decreases column_names@.len() - i,
        {
            match self.get_value(column_names[i]) {
                Ok(v) => out.push(v.copy_value()),
                Err(e) => {
                    assert(!self@.contains_key(column_names@[i as int]@));
                    return Err(e);
                },
            }
            i = i + 1;
        }
        Ok(out)
    }
}

impl RecordBuilder {
    pub fn with_column(self, column_name: String, column_value: Value) -> (r: RecordBuilder)
        ensures
            self.columns().contains_key(column_name@) ==> {
                &&& r.columns() == self.columns()
                &&& r.first_error() == if self.first_error() is Some {
                    self.first_error()
                } else {
                    Some(
                        RecordError::ColumnDefinedTwiceError {
                            column_name,
                            first_value: self.columns()[column_name@],
                            second_value: column_value,
                        },
                    )
                }
            },
            !self.columns().contains_key(column_name@) ==> {
                &&& r.columns() == self.columns().insert(column_name@, column_value)
                &&& r.first_error() == self.first_error()
            },
    {
        let mut b = self;
        match find_entry(&b.record.values_map, column_name.as_str()) {
            Some(i) => {
                if b.error.is_none() {
                    let first = b.record.values_map[i].1.copy_value();
                    b.error = Some(
                        RecordError::ColumnDefinedTwiceError {
                            column_name,
                            first_value: first,
                            second_value: column_value,
                        },
                    );
                }
                b
            },
            None => {
                b.record.values_map.push((column_name, column_value));
                proof {
                    assert(b.record.values_map@.drop_last() =~= self.record.values_map@);
                }
                b
            },
        }
    }

    pub fn build(self) -> (r: Result<Record, RecordError>)
        ensures
            match self.first_error() {
                Some(e) => r == Err::<Record, RecordError>(e),
                None => r matches Ok(rec) && rec@ == self.columns(),
            },
    {
        match self.error {
            Some(e) => Err(e),
            None => Ok(self.record),
        }
    }
}

} // verus!
