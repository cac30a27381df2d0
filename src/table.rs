use vstd::prelude::*;
use crate::key::{DatabaseKey, lemma_key_order};
use crate::record::{
    Record, RecordBuilder, RecordError, map_of, names_of, views_of, find_entry, build_state,
    lemma_map_of_keys, lemma_build_state_domain,
};
use crate::value::{ColumnType, Value, type_of, is_ordered, value_less, value_same, same_text};

verus! {

#[derive(Clone, Debug, PartialEq)]
pub enum TableError {
    ColumnDefinedTwiceError { column_name: String, first_type: ColumnType, second_type: ColumnType },
    InvalidColumnNameError(String),
    KeyNotFoundError(Value),
    PrimaryKeyConstraintViolation(Value),
    InsertInvalidColumnTypeError {
        column_name: String,
        expected_type: ColumnType,
        got_type: ColumnType,
    },
    InsertMissingColumnsError(Vec<String>),
    InsertNotMatchingArgsLengthError,
    RecordError(RecordError),
}

/// Records under a typed schema, kept in key order, at most one per key.
#[derive(Debug)]
pub struct Table<K: DatabaseKey> {
    name: String,
    records: Vec<(K, Record)>,
    columns: Vec<(String, ColumnType)>,
    key_name: String,
}

/// Builds a `Table` column by column; the first column given twice is
/// reported by `build`.
pub struct TableBuilder<K: DatabaseKey> {
    table: Table<K>,
    error: Option<TableError>,
}

/// The columns of `order` that `names` leaves out, in order.
pub open spec fn missing_columns(order: Seq<Seq<char>>, names: Seq<Seq<char>>) -> Seq<Seq<char>>
    decreases order.len(),
{
    if order.len() == 0 {
        Seq::empty()
    } else {
        let rest = missing_columns(order.drop_last(), names);
        let c = order.last();
        if !names.contains(c) {
            rest.push(c)
        } else {
            rest
        }
    }
}

/// What is wrong with one supplied (name, value) pair, if anything.
pub open spec fn pair_error(schema: Map<Seq<char>, ColumnType>, name: String, v: Value) -> Option<
    TableError,
> {
    if !schema.contains_key(name@) {
        Some(TableError::InvalidColumnNameError(name))
    } else if schema[name@] != type_of(v) {
        Some(
            TableError::InsertInvalidColumnTypeError {
                column_name: name,
                expected_type: schema[name@],
                got_type: type_of(v),
            },
        )
    } else {
        None
    }
}

/// The error of the first bad pair among `(names[i], values[i])`.
pub open spec fn first_pair_error(
    schema: Map<Seq<char>, ColumnType>,
    names: Seq<String>,
    values: Seq<Value>,
) -> Option<TableError>
    decreases names.len(),
{
    if names.len() == 0 {
        None
    } else {
        let n = names.len() - 1;
        let prev = first_pair_error(schema, names.drop_last(), values.take(n));
        if prev is Some {
            prev
        } else {
            pair_error(schema, names[n], values[n])
        }
    }
}

/// The first position of `x` in `s`.
pub open spec fn first_position(s: Seq<Seq<char>>, x: Seq<char>) -> int {
    choose|i: int| 0 <= i < s.len() && s[i] == x && forall|j: int| 0 <= j < i ==> s[j] != x
}

/// Some stored key is the same as `k`.
pub open spec fn key_present(keys: Seq<Value>, k: Value) -> bool {
    exists|j: int| 0 <= j < keys.len() && value_same(keys[j], k)
}

/// The schema of a table, seen from outside.
pub struct Schema {
    pub order: Seq<Seq<char>>,
    pub columns: Map<Seq<char>, ColumnType>,
    pub key_name: String,
    pub key_type: ColumnType,
}

/// The key value that an insert of these pairs would use.
pub open spec fn insert_key(s: Schema, names: Seq<String>, values: Seq<Value>) -> Value {
    values[first_position(views_of(names), s.key_name@)]
}

/// `e` is what an insert of these pairs into a table with this schema and
/// these keys reports; false when the insert is accepted. The checks run in
/// this order and the first that fails decides.
pub open spec fn insert_error(
    s: Schema,
    keys: Seq<Value>,
    names: Seq<String>,
    values: Seq<Value>,
    e: TableError,
) -> bool {
    let missing = missing_columns(s.order, views_of(names));
    let kv = insert_key(s, names, values);
    if names.len() != values.len() {
        e is InsertNotMatchingArgsLengthError
    } else if missing.len() > 0 {
        e matches TableError::InsertMissingColumnsError(l) && views_of(l@) == missing
    } else if !views_of(names).contains(s.key_name@) {
        e matches TableError::InsertMissingColumnsError(l) && views_of(l@) == seq![s.key_name@]
    } else if first_pair_error(s.columns, names, values) is Some {
        Some(e) == first_pair_error(s.columns, names, values)
    } else if !(type_of(kv) == s.key_type && is_ordered(kv)) {
        e matches TableError::InsertInvalidColumnTypeError { column_name, expected_type, got_type }
            && column_name@ == s.key_name@ && expected_type == s.key_type && got_type == type_of(kv)
    } else if build_state(names, values).1 is Some {
        build_state(names, values).1 matches Some(re) && e == TableError::RecordError(re)
    } else if key_present(keys, kv) {
        e == TableError::PrimaryKeyConstraintViolation(kv)
    } else {
        false
    }
}

/// An insert of these pairs passes every check.
pub open spec fn insert_accepted(
    s: Schema,
    keys: Seq<Value>,
    names: Seq<String>,
    values: Seq<Value>,
) -> bool {
    let kv = insert_key(s, names, values);
    &&& names.len() == values.len()
    &&& missing_columns(s.order, views_of(names)).len() == 0
    &&& views_of(names).contains(s.key_name@)
    &&& first_pair_error(s.columns, names, values) is None
    &&& type_of(kv) == s.key_type && is_ordered(kv)
    &&& build_state(names, values).1 is None
    &&& !key_present(keys, kv)
}

/// The rows whose answer is true, in order.
pub open spec fn select_rows(rows: Seq<Map<Seq<char>, Value>>, answers: Seq<bool>) -> Seq<
    Map<Seq<char>, Value>,
>
    decreases rows.len(),
{
    if rows.len() == 0 || answers.len() != rows.len() {
        Seq::empty()
    } else {
        let prev = select_rows(rows.drop_last(), answers.drop_last());
        if answers.last() {
            prev.push(rows.last())
        } else {
            prev
        }
    }
}

/// The keys are in strictly increasing order.
pub open spec fn keys_sorted(keys: Seq<Value>) -> bool {
    forall|i: int, j: int| 0 <= i < j < keys.len() ==> value_less(keys[i], keys[j])
}

/// `keys` with `k` put where the order wants it.
pub open spec fn placed_at(keys: Seq<Value>, k: Value, p: int) -> bool {
    &&& 0 <= p <= keys.len()
    &&& forall|j: int| 0 <= j < p ==> value_less(keys[j], k)
    &&& forall|j: int| p <= j < keys.len() ==> value_less(k, keys[j])
}

impl<K: DatabaseKey> Table<K> {
    pub closed spec fn name_view(&self) -> Seq<char> {
        self.name@
    }

    pub closed spec fn schema(&self) -> Schema {
        Schema {
            order: names_of(self.columns@),
            columns: map_of(self.columns@),
            key_name: self.key_name,
            key_type: K::key_type(),
        }
    }

    /// The keys of the stored records, in order.
    pub closed spec fn keys(&self) -> Seq<Value> {
        self.records@.map_values(|e: (K, Record)| e.0.key_value())
    }

    /// The stored records themselves, in key order.
    pub closed spec fn stored(&self) -> Seq<Record> {
        self.records@.map_values(|e: (K, Record)| e.1)
    }

    /// The stored records, in key order.
    pub closed spec fn rows(&self) -> Seq<Map<Seq<char>, Value>> {
        self.records@.map_values(|e: (K, Record)| e.1@)
    }

    pub closed spec fn wf(&self) -> bool {
        &&& self.records@.len() == self.keys().len()
        &&& keys_sorted(self.keys())
        &&& map_of(self.columns@).contains_key(self.key_name@)
        &&& map_of(self.columns@)[self.key_name@] == K::key_type()
        &&& forall|i: int|
            0 <= i < self.records@.len() ==> #[trigger] self.records@[i].1@.dom() =~= map_of(
                self.columns@,
            ).dom()
    }

    /// What a well-formed table guarantees: one key per record, keys in
    /// strictly increasing order, the key column typed by the key domain, and
    /// every record holding exactly the schema's columns.
    pub proof fn lemma_table_invariant(&self)
        requires
            self.wf(),
        ensures
            self.keys().len() == self.rows().len(),
            keys_sorted(self.keys()),
            self.schema().columns.contains_key(self.schema().key_name@),
            self.schema().columns[self.schema().key_name@] == self.schema().key_type,
            forall|i: int|
                0 <= i < self.rows().len() ==> #[trigger] self.rows()[i].dom()
                    == self.schema().columns.dom(),
    {
        assert forall|i: int| 0 <= i < self.rows().len() implies #[trigger] self.rows()[i].dom()
            == self.schema().columns.dom() by {
            assert(self.rows()[i] == self.records@[i].1@);
        }
    }

    pub fn get_name(&self) -> (r: &str)
        ensures
            r@ == self.name_view(),
    {
        self.name.as_str()
    }

    pub fn get_key_name(&self) -> (r: &str)
        ensures
            r@ == self.schema().key_name@,
    {
        self.key_name.as_str()
    }

    /// The columns with their types, in the order they were defined.
    pub fn get_columns(&self) -> (r: &Vec<(String, ColumnType)>)
        ensures
            names_of(r@) == self.schema().order,
            map_of(r@) == self.schema().columns,
    {
        &self.columns
    }

    pub fn record_count(&self) -> (r: usize)
        requires
            self.wf(),
        ensures
            r == self.rows().len(),
    {
        self.records.len()
    }

    /// The record at position `i` in key order.
    pub fn record_at(&self, i: usize) -> (r: &Record)
        requires
            self.wf(),
            i < self.rows().len(),
        ensures
            r@ == self.rows()[i as int],
    {
        &self.records[i].1
    }

    /// The record stored under `key`, if any.
    pub fn get_record(&self, key: &K) -> (r: Option<&Record>)
        requires
            self.wf(),
        ensures
            r is Some == key_present(self.keys(), key.key_value()),
            r matches Some(rec) ==> exists|j: int|
                0 <= j < self.keys().len() && value_same(self.keys()[j], key.key_value())
                    && rec@ == self.rows()[j],
    {
        let mut i: usize = 0;
        while i < self.records.len()
            invariant
                i <= self.records@.len(),
                forall|j: int| 0 <= j < i ==> !value_same(self.keys()[j], key.key_value()),
            decreases self.records@.len() - i,
        {
            if self.records[i].0.is_equal_to(key) {
                proof {
                    assert(value_same(self.keys()[i as int], key.key_value()));
                    assert(self.rows()[i as int] == self.records@[i as int].1@);
                }
                return Some(&self.records[i].1);
            }
            i = i + 1;
        }
        None
    }

    /// The declared type of a column, if the schema has it.
    pub fn column_type(&self, column_name: &str) -> (r: Option<ColumnType>)
        ensures
            r == if self.schema().columns.contains_key(column_name@) {
                Some(self.schema().columns[column_name@])
            } else {
                None::<ColumnType>
            },
    {
        match find_entry(&self.columns, column_name) {
            Some(i) => Some(self.columns[i].1),
            None => None,
        }
    }

    /// The records, in key order, for which `filter` answers true.
    pub fn filter<F: Fn(&Record) -> bool>(&self, filter: F) -> (r: Vec<&Record>)
        requires
            self.wf(),
            forall|rec: &Record| filter.requires((rec,)),
        ensures
            exists|answers: Seq<bool>|
                answers.len() == self.rows().len() && (forall|i: int|
                    0 <= i < answers.len() ==> filter.ensures(
                        (&self.stored()[i],),
                        #[trigger] answers[i],
                    )) && r@.map_values(|rec: &Record| rec@) == select_rows(self.rows(), answers),
    {
        let mut out: Vec<&Record> = Vec::new();
        let ghost mut answers: Seq<bool> = Seq::empty();
        let mut i: usize = 0;
        while i < self.records.len()
            invariant
                i <= self.records@.len(),
                self.wf(),
                forall|rec: &Record| filter.requires((rec,)),
                answers.len() == i,
                forall|k: int|
                    0 <= k < i ==> filter.ensures((&self.stored()[k],), #[trigger] answers[k]),
                out@.map_values(|rec: &Record| rec@) == select_rows(
                    self.rows().take(i as int),
                    answers,
                ),
            decreases self.records@.len() - i,
        {
            let rec = &self.records[i].1;
            let keep = filter(rec);
            let ghost prev = out@;
            if keep {
                out.push(rec);
            }
            proof {
                let rows = self.rows();
                assert(rows.take(i + 1).drop_last() =~= rows.take(i as int));
                assert(answers.push(keep).drop_last() =~= answers);
                assert(rows[i as int] == rec@);
                assert(self.stored()[i as int] == *rec);
                if keep {
                    assert(out@.map_values(|r: &Record| r@) =~= prev.map_values(|r: &Record| r@).push(
                        rec@,
                    ));
                } else {
                    assert(out@ == prev);
                }
                answers = answers.push(keep);
            }
            i = i + 1;
        }
        proof {
            assert(self.rows().take(self.records@.len() as int) =~= self.rows());
        }
        out
    }

    pub fn new_builder(name: String, key_name: String) -> (r: TableBuilder<K>)
        ensures
            r.table_name() == name@,
            r.key_name() == key_name,
            r.columns_so_far() == Map::<Seq<char>, ColumnType>::empty(),
            r.order_so_far() == Seq::<Seq<char>>::empty(),
            r.first_error() is None,
            r.wf(),
    {
        TableBuilder {
            table: Table { name, records: Vec::new(), columns: Vec::new(), key_name },
            error: None,
        }
    }

    /// The columns of the schema, other than the key, that `names` leaves out.
    fn columns_missing_from(&self, names: &Vec<String>) -> (r: Vec<String>)
        ensures
            views_of(r@) == missing_columns(self.schema().order, views_of(names@)),
    {
        let mut out: Vec<String> = Vec::new();
        let mut i: usize = 0;
        while i < self.columns.len()
            invariant
                i <= self.columns@.len(),
                views_of(out@) == missing_columns(
                    names_of(self.columns@).take(i as int),
                    views_of(names@),
                ),
            decreases self.columns@.len() - i,
        {
            let c = &self.columns[i].0;
            let present = contains_text(names, c.as_str());
            proof {
                assert(names_of(self.columns@).take(i + 1).drop_last() =~= names_of(
                    self.columns@,
                ).take(i as int));
            }
            if !present {
                let ghost prev = out@;
                out.push(c.clone());
                proof {
                    assert(views_of(out@) =~= views_of(prev).push(c@));
                }
            }
            i = i + 1;
        }
        proof {
            assert(names_of(self.columns@).take(self.columns@.len() as int) =~= names_of(
                self.columns@,
            ));
        }
        out
    }

    pub fn insert(&mut self, column_names: Vec<String>, column_values: Vec<Value>) -> (r: Result<
        (),
        TableError,
    >)
        requires
            old(self).wf(),
        ensures
            final(self).wf(),
            final(self).name_view() == old(self).name_view(),
            final(self).schema() == old(self).schema(),
            r is Ok == insert_accepted(
                old(self).schema(),
                old(self).keys(),
                column_names@,
                column_values@,
            ),
            match r {
                Ok(()) => exists|p: int|
                    placed_at(
                        old(self).keys(),
                        insert_key(old(self).schema(), column_names@, column_values@),
                        p,
                    ) && final(self).keys() == old(self).keys().insert(
                        p,
                        insert_key(old(self).schema(), column_names@, column_values@),
                    ) && final(self).rows() == old(self).rows().insert(
                        p,
                        build_state(column_names@, column_values@).0,
                    ),
                Err(e) => insert_error(
                    old(self).schema(),
                    old(self).keys(),
                    column_names@,
                    column_values@,
                    e,
                ) && final(self).keys() == old(self).keys() && final(self).rows() == old(
                    self,
                ).rows(),
            },
    {
        if column_names.len() != column_values.len() {
            return Err(TableError::InsertNotMatchingArgsLengthError);
        }
        let missing = self.columns_missing_from(&column_names);
        if missing.len() > 0 {
            return Err(TableError::InsertMissingColumnsError(missing));
        }
        let key_idx = match position_of(&column_names, self.key_name.as_str()) {
            Some(k) => k,
            None => {
                let l = vec![self.key_name.clone()];
                proof {
                    assert(views_of(l@) =~= seq![self.key_name@]);
                }
                return Err(TableError::InsertMissingColumnsError(l));
            },
        };
        match self.check_pairs(&column_names, &column_values) {
            Err(e) => {
                return Err(e);
            },
            Ok(()) => {},
        }
        let key_value = column_values[key_idx].copy_value();
        let builder = build_record(&column_names, &column_values);
        proof {
            lemma_accepted_domain(self.columns@, self.key_name@, column_names@, column_values@);
        }
        self.insert_with_key(builder, &key_value)
    }

    /// Checks each (name, value) pair against the schema, in order.
    fn check_pairs(&self, column_names: &Vec<String>, column_values: &Vec<Value>) -> (r: Result<
        (),
        TableError,
    >)
        requires
            column_names@.len() == column_values@.len(),
        ensures
            match r {
                Ok(()) => first_pair_error(map_of(self.columns@), column_names@, column_values@)
                    is None,
                Err(e) => first_pair_error(map_of(self.columns@), column_names@, column_values@)
                    == Some(e),
            },
    {
        let ghost names = column_names@;
        let ghost values = column_values@;
        let mut i: usize = 0;
        while i < column_names.len()
            invariant
                i <= names.len(),
                names == column_names@,
                values == column_values@,
                names.len() == values.len(),
                first_pair_error(map_of(self.columns@), names.take(i as int), values.take(i as int))
                    is None,
            decreases names.len() - i,
        {
            proof {
                assert(names.take(i + 1).drop_last() =~= names.take(i as int));
                assert(values.take(i + 1).take(i as int) =~= values.take(i as int));
                lemma_first_pair_error_prefix(map_of(self.columns@), names, values, i + 1);
            }
            let name = &column_names[i];
            let value = &column_values[i];
            match find_entry(&self.columns, name.as_str()) {
                None => {
                    return Err(TableError::InvalidColumnNameError(name.clone()));
                },
                Some(c) => {
                    let t = self.columns[c].1;
                    if !t.is_type_of(value) {
                        return Err(
                            TableError::InsertInvalidColumnTypeError {
                                column_name: name.clone(),
                                expected_type: t,
                                got_type: ColumnType::from_value(value),
                            },
                        );
                    }
                },
            }
            i = i + 1;
        }
        proof {
            assert(names.take(names.len() as int) =~= names);
            assert(values.take(values.len() as int) =~= values);
        }
        Ok(())
    }

    /// The first position whose key is not below `key`.
    fn lower_bound(&self, key: &K) -> (p: usize)
        requires
            self.wf(),
        ensures
            p <= self.keys().len(),
            forall|j: int| 0 <= j < p ==> value_less(self.keys()[j], key.key_value()),
            p < self.keys().len() ==> !value_less(self.keys()[p as int], key.key_value()),
    {
        let mut p: usize = 0;
        let mut done = false;
        while !done && p < self.records.len()
            invariant
                p <= self.records@.len(),
                self.wf(),
                forall|j: int| 0 <= j < p ==> value_less(self.keys()[j], key.key_value()),
                done ==> p < self.records@.len() && !value_less(
                    self.keys()[p as int],
                    key.key_value(),
                ),
            decreases self.records@.len() - p, if done { 0int } else { 1int },
        {
            if self.records[p].0.is_less_than(key) {
                p = p + 1;
            } else {
                done = true;
            }
        }
        p
    }

    fn insert_with_key(&mut self, new_record: RecordBuilder, key_value: &Value) -> (r: Result<
        (),
        TableError,
    >)
        requires
            old(self).wf(),
            new_record.first_error() is None ==> new_record.columns().dom() =~= map_of(
                old(self).columns@,
            ).dom(),
        ensures
            final(self).wf(),
            final(self).name_view() == old(self).name_view(),
            final(self).schema() == old(self).schema(),
            r is Ok == (type_of(*key_value) == K::key_type() && is_ordered(*key_value)
                && new_record.first_error() is None && !key_present(old(self).keys(), *key_value)),
            match r {
                Ok(()) => exists|p: int|
                    placed_at(old(self).keys(), *key_value, p) && final(self).keys() == old(
                        self,
                    ).keys().insert(p, *key_value) && final(self).rows() == old(self).rows().insert(
                        p,
                        new_record.columns(),
                    ),
                Err(e) => final(self).keys() == old(self).keys() && final(self).rows() == old(
                    self,
                ).rows() && if !(type_of(*key_value) == K::key_type() && is_ordered(*key_value)) {
                    e matches TableError::InsertInvalidColumnTypeError {
                        column_name,
                        expected_type,
                        got_type,
                    } && column_name@ == old(self).key_name@ && expected_type == K::key_type()
                        && got_type == type_of(*key_value)
                } else if new_record.first_error() is Some {
                    new_record.first_error() matches Some(re) && e == TableError::RecordError(re)
                } else {
                    e == TableError::PrimaryKeyConstraintViolation(*key_value)
                },
            },
    {
        let key = match K::from_value(key_value.copy_value()) {
            Some(k) => k,
            None => {
                return Err(
                    TableError::InsertInvalidColumnTypeError {
                        column_name: self.key_name.clone(),
                        expected_type: K::to_column_type(),
                        got_type: ColumnType::from_value(key_value),
                    },
                );
            },
        };
        let record = match new_record.build() {
            Ok(rec) => rec,
            Err(e) => {
                return Err(TableError::RecordError(e));
            },
        };
        let p = self.lower_bound(&key);
        if p < self.records.len() && self.records[p].0.is_equal_to(&key) {
            proof {
                assert(value_same(self.keys()[p as int], *key_value));
            }
            return Err(TableError::PrimaryKeyConstraintViolation(key.to_value()));
        }
        proof {
            if p < self.records@.len() {
                lemma_key_order(&self.records@[p as int].0, &key, &key);
            }
            assert forall|j: int| p <= j < self.keys().len() implies value_less(
                key.key_value(),
                self.keys()[j],
            ) by {
                lemma_key_order(&key, &self.records@[p as int].0, &self.records@[j].0);
            }
            assert forall|j: int| 0 <= j < self.keys().len() implies !value_same(
                self.keys()[j],
                key.key_value(),
            ) by {
                lemma_key_order(&self.records@[j].0, &key, &key);
            }
        }
        let ghost old_keys = self.keys();
        let ghost old_rows = self.rows();
        self.records.insert(p, (key, record));
        proof {
            assert(self.keys() =~= old_keys.insert(p as int, *key_value));
            assert(self.rows() =~= old_rows.insert(p as int, new_record.columns()));
            assert forall|a: int, b: int| 0 <= a < b < self.keys().len() implies value_less(
                self.keys()[a],
                self.keys()[b],
            ) by {
                if a < p && b > p {
                    lemma_key_order(
                        &self.records@[a].0,
                        &self.records@[p as int].0,
                        &self.records@[b].0,
                    );
                }
            }
            assert(placed_at(old_keys, *key_value, p as int));
        }
        Ok(())
    }

    pub fn delete(&mut self, key: K) -> (r: Result<(), TableError>)
        requires
            old(self).wf(),
        ensures
            final(self).wf(),
            final(self).name_view() == old(self).name_view(),
            final(self).schema() == old(self).schema(),
            r is Ok == key_present(old(self).keys(), key.key_value()),
            match r {
                Ok(()) => exists|j: int|
                    0 <= j < old(self).keys().len() && value_same(
                        old(self).keys()[j],
                        key.key_value(),
                    ) && final(self).keys() == old(self).keys().remove(j) && final(self).rows()
                        == old(self).rows().remove(j),
                Err(e) => e == TableError::KeyNotFoundError(key.key_value()) && final(self).keys()
                    == old(self).keys() && final(self).rows() == old(self).rows(),
            },
    {
        let mut i: usize = 0;
        while i < self.records.len()
            invariant
                i <= self.records@.len(),
                self.wf(),
                forall|j: int| 0 <= j < i ==> !value_same(self.keys()[j], key.key_value()),
                *self == *old(self),
            decreases self.records@.len() - i,
        {
            if self.records[i].0.is_equal_to(&key) {
                let ghost old_keys = self.keys();
                let ghost old_rows = self.rows();
                let ghost old_records = self.records@;
                let _removed = self.records.remove(i);
                proof {
                    assert(value_same(old_keys[i as int], key.key_value()));
                    assert(self.keys() =~= old_keys.remove(i as int));
                    assert(self.rows() =~= old_rows.remove(i as int));
                    assert forall|a: int| 0 <= a < self.records@.len() implies #[trigger] self.records@[a].1@.dom()
                        =~= map_of(self.columns@).dom() by {
                        if a >= i {
                            assert(self.records@[a] == old_records[a + 1]);
                        }
                    }
                }
                return Ok(());
            }
            i = i + 1;
        }
        Err(TableError::KeyNotFoundError(key.to_value()))
    }
}

/// A record built from accepted pairs has exactly the schema's columns.
proof fn lemma_accepted_domain(
    columns: Seq<(String, ColumnType)>,
    key: Seq<char>,
    names: Seq<String>,
    values: Seq<Value>,
)
    requires
        names.len() == values.len(),
        missing_columns(names_of(columns), views_of(names)).len() == 0,
        views_of(names).contains(key),
        map_of(columns).contains_key(key),
        first_pair_error(map_of(columns), names, values) is None,
    ensures
        build_state(names, values).0.dom() =~= map_of(columns).dom(),
{
    lemma_build_state_domain(names, values);
    lemma_no_pair_error(map_of(columns), names, values);
    assert forall|c: Seq<char>| #[trigger] map_of(columns).dom().contains(c) implies views_of(
        names,
    ).contains(c) by {
        lemma_map_of_keys(columns, c);
        lemma_nothing_missing(names_of(columns), views_of(names), c);
    }
    assert forall|c: Seq<char>| views_of(names).contains(c) implies #[trigger] map_of(
        columns,
    ).dom().contains(c) by {
        let i = choose|i: int| 0 <= i < views_of(names).len() && views_of(names)[i] == c;
        assert(names[i]@ == c);
    }
}

/// With nothing missing, every column is named.
proof fn lemma_nothing_missing(order: Seq<Seq<char>>, names: Seq<Seq<char>>, c: Seq<char>)
    requires
        missing_columns(order, names).len() == 0,
        order.contains(c),
    ensures
        names.contains(c),
    decreases order.len(),
{
    if c != order.last() {
        let i = choose|i: int| 0 <= i < order.len() && order[i] == c;
        assert(order.drop_last()[i] == c);
        lemma_nothing_missing(order.drop_last(), names, c);
    }
}

/// With no bad pair, every supplied name is a column of the schema.
proof fn lemma_no_pair_error(
    schema: Map<Seq<char>, ColumnType>,
    names: Seq<String>,
    values: Seq<Value>,
)
    requires
        names.len() <= values.len(),
        first_pair_error(schema, names, values) is None,
    ensures
        forall|i: int| 0 <= i < names.len() ==> schema.contains_key(#[trigger] names[i]@),
    decreases names.len(),
{
    if names.len() > 0 {
        let n = names.len() - 1;
        lemma_no_pair_error(schema, names.drop_last(), values.take(n));
        assert forall|i: int| 0 <= i < names.len() implies schema.contains_key(
            #[trigger] names[i]@,
        ) by {
            if i < n {
                assert(names.drop_last()[i] == names[i]);
            }
        }
    }
}

/// Builds a record from the pairs `(names[i], values[i])`, in order.
fn build_record(column_names: &Vec<String>, column_values: &Vec<Value>) -> (r: RecordBuilder)
    requires
        column_names@.len() == column_values@.len(),
    ensures
        r.columns() == build_state(column_names@, column_values@).0,
        r.first_error() == build_state(column_names@, column_values@).1,
{
    let ghost names = column_names@;
    let ghost values = column_values@;
    let mut builder = Record::new_builder();
    let mut j: usize = 0;
    while j < column_names.len()
        invariant
            j <= names.len(),
            names == column_names@,
            values == column_values@,
            names.len() == values.len(),
            builder.columns() == build_state(names.take(j as int), values.take(j as int)).0,
            builder.first_error() == build_state(names.take(j as int), values.take(j as int)).1,
        decreases names.len() - j,
    {
        proof {
            assert(names.take(j + 1).drop_last() =~= names.take(j as int));
            assert(values.take(j + 1).take(j as int) =~= values.take(j as int));
        }
        builder = builder.with_column(column_names[j].clone(), column_values[j].copy_value());
        j = j + 1;
    }
    proof {
        assert(names.take(names.len() as int) =~= names);
        assert(values.take(values.len() as int) =~= values);
    }
    builder
}

/// Whether some string of `v` holds the characters of `s`.
fn contains_text(v: &Vec<String>, s: &str) -> (r: bool)
    ensures
        r == views_of(v@).contains(s@),
{
    match position_of(v, s) {
        Some(_) => true,
        None => false,
    }
}

/// The first position in `v` of a string holding the characters of `s`.
fn position_of(v: &Vec<String>, s: &str) -> (r: Option<usize>)
    ensures
        match r {
            Some(i) => i < v@.len() && views_of(v@).contains(s@) && i == first_position(
                views_of(v@),
                s@,
            ),
            None => !views_of(v@).contains(s@),
        },
{
    let mut i: usize = 0;
    while i < v.len()
        invariant
            i <= v@.len(),
            forall|j: int| 0 <= j < i ==> v@[j]@ != s@,
        decreases v@.len() - i,
    {
        if same_text(v[i].as_str(), s) {
            proof {
                assert(views_of(v@)[i as int] == s@);
                let f = first_position(views_of(v@), s@);
                assert(f == i);
            }
            return Some(i);
        }
        i = i + 1;
    }
    proof {
        if views_of(v@).contains(s@) {
            let j = choose|j: int| 0 <= j < views_of(v@).len() && views_of(v@)[j] == s@;
            assert(v@[j]@ == s@);
        }
    }
    None
}

/// Once a prefix of pairs holds a bad one, longer prefixes report the same.
proof fn lemma_first_pair_error_prefix(
    schema: Map<Seq<char>, ColumnType>,
    names: Seq<String>,
    values: Seq<Value>,
    i: int,
)
    requires
        0 < i <= names.len(),
        names.len() == values.len(),
        first_pair_error(schema, names.take(i - 1), values.take(i - 1)) is None,
    ensures
        first_pair_error(schema, names.take(i), values.take(i)) == pair_error(
            schema,
            names[i - 1],
            values[i - 1],
        ),
        first_pair_error(schema, names.take(i), values.take(i)) is Some ==> first_pair_error(
            schema,
            names,
            values,
        ) == first_pair_error(schema, names.take(i), values.take(i)),
    decreases names.len(),
{
    assert(names.take(i).drop_last() =~= names.take(i - 1));
    assert(values.take(i).take(i - 1) =~= values.take(i - 1));
    if i < names.len() {
        let n = names.len() - 1;
        assert(names.drop_last().take(i) =~= names.take(i));
        assert(values.take(n).take(i) =~= values.take(i));
        assert(names.drop_last().take(i - 1) =~= names.take(i - 1));
        assert(values.take(n).take(i - 1) =~= values.take(i - 1));
        lemma_first_pair_error_prefix(schema, names.drop_last(), values.take(n), i);
    } else {
        assert(names.take(i) =~= names);
        assert(values.take(i) =~= values);
    }
}

/// The columns, their order and the first error of a table builder fed the
/// pairs `(names[i], types[i])` in order, starting from an empty one.
pub open spec fn schema_state(names: Seq<String>, types: Seq<ColumnType>) -> (
    Map<Seq<char>, ColumnType>,
    Seq<Seq<char>>,
    Option<TableError>,
)
    decreases names.len(),
{
    if names.len() == 0 {
        (Map::empty(), Seq::empty(), None)
    } else {
        let n = names.len() - 1;
        let prev = schema_state(names.drop_last(), types.take(n));
        let name = names[n];
        if prev.0.contains_key(name@) {
            (
                prev.0,
                prev.1,
                if prev.2 is Some {
                    prev.2
                } else {
                    Some(
                        TableError::ColumnDefinedTwiceError {
                            column_name: name,
                            first_type: prev.0[name@],
                            second_type: types[n],
                        },
                    )
                },
            )
        } else {
            (prev.0.insert(name@, types[n]), prev.1.push(name@), prev.2)
        }
    }
}

/// The error that `build` reports after the pairs `(names[i], types[i])`,
/// the key column included.
pub open spec fn build_error(
    names: Seq<String>,
    types: Seq<ColumnType>,
    key_name: String,
    key_type: ColumnType,
) -> Option<TableError> {
    let st = schema_state(names, types);
    if st.2 is Some {
        st.2
    } else if st.0.contains_key(key_name@) {
        Some(
            TableError::ColumnDefinedTwiceError {
                column_name: key_name,
                first_type: st.0[key_name@],
                second_type: key_type,
            },
        )
    } else {
        None
    }
}

impl<K: DatabaseKey> TableBuilder<K> {
    pub closed spec fn table_name(&self) -> Seq<char> {
        self.table.name@
    }

    pub closed spec fn key_name(&self) -> String {
        self.table.key_name
    }

    /// The columns defined so far.
    pub closed spec fn columns_so_far(&self) -> Map<Seq<char>, ColumnType> {
        map_of(self.table.columns@)
    }

    /// The names of the columns defined so far, in order.
    pub closed spec fn order_so_far(&self) -> Seq<Seq<char>> {
        names_of(self.table.columns@)
    }

    /// The first error met so far.
    pub closed spec fn first_error(&self) -> Option<TableError> {
        self.error
    }

    pub closed spec fn wf(&self) -> bool {
        self.table.records@.len() == 0
    }

    pub fn with_column(self, column_name: String, column_type: ColumnType) -> (r: Self)
        ensures
            r.table_name() == self.table_name(),
            r.key_name() == self.key_name(),
            self.columns_so_far().contains_key(column_name@) ==> {
                &&& r.columns_so_far() == self.columns_so_far()
                &&& r.order_so_far() == self.order_so_far()
                &&& r.first_error() == if self.first_error() is Some {
                    self.first_error()
                } else {
                    Some(
                        TableError::ColumnDefinedTwiceError {
                            column_name,
                            first_type: self.columns_so_far()[column_name@],
                            second_type: column_type,
                        },
                    )
                }
            },
            !self.columns_so_far().contains_key(column_name@) ==> {
                &&& r.columns_so_far() == self.columns_so_far().insert(column_name@, column_type)
                &&& r.order_so_far() == self.order_so_far().push(column_name@)
                &&& r.first_error() == self.first_error()
            },
            self.wf() ==> r.wf(),
    {
        let mut b = self;
        match find_entry(&b.table.columns, column_name.as_str()) {
            Some(i) => {
                if b.error.is_none() {
                    let first = b.table.columns[i].1;
                    b.error = Some(
                        TableError::ColumnDefinedTwiceError {
                            column_name,
                            first_type: first,
                            second_type: column_type,
                        },
                    );
                }
                b
            },
            None => {
                b.table.columns.push((column_name, column_type));
                proof {
                    assert(b.table.columns@.drop_last() =~= self.table.columns@);
                    assert(names_of(b.table.columns@) =~= names_of(self.table.columns@).push(
                        column_name@,
                    ));
                }
                b
            },
        }
    }

    /// Adds the key column, with the key's type, and finishes the table.
    pub fn build(self) -> (r: Result<Table<K>, TableError>)
        requires
            self.wf(),
        ensures
            ({
                let first = if self.first_error() is Some {
                    self.first_error()
                } else if self.columns_so_far().contains_key(self.key_name()@) {
                    Some(
                        TableError::ColumnDefinedTwiceError {
                            column_name: self.key_name(),
                            first_type: self.columns_so_far()[self.key_name()@],
                            second_type: K::key_type(),
                        },
                    )
                } else {
                    None
                };
                match first {
                    Some(e) => r == Err::<Table<K>, TableError>(e),
                    None => r matches Ok(t) && {
                        &&& t.wf()
                        &&& t.name_view() == self.table_name()
                        &&& t.schema().key_name == self.key_name()
                        &&& t.schema().key_type == K::key_type()
                        &&& t.schema().columns == self.columns_so_far().insert(
                            self.key_name()@,
                            K::key_type(),
                        )
                        &&& t.schema().order == self.order_so_far().push(self.key_name()@)
                        &&& t.keys().len() == 0
                    },
                }
            }),
    {
        let key_name = self.table.key_name.clone();
        let b = self.with_column(key_name, K::to_column_type());
        match b.error {
            Some(e) => Err(e),
            None => {
                proof {
                    lemma_map_of_keys(b.table.columns@, b.table.key_name@);
                }
                Ok(b.table)
            },
        }
    }
}

/// What a table builder holds after a sequence of column definitions: a
/// name is defined iff it was given, under the type it was first given;
/// an error is reported iff some name was given twice, and it is the
/// redefinition of a name, carrying the first type and the repeated one.
pub proof fn lemma_schema_uniqueness(names: Seq<String>, types: Seq<ColumnType>)
    requires
        names.len() == types.len(),
    ensures
        forall|n: Seq<char>|
            #[trigger] schema_state(names, types).0.contains_key(n) <==> views_of(names).contains(
                n,
            ),
        forall|n: Seq<char>|
            #[trigger] schema_state(names, types).0.contains_key(n) ==> (exists|i: int|
                0 <= i < names.len() && names[i]@ == n && schema_state(names, types).0[n]
                    == types[i] && forall|k: int| 0 <= k < i ==> names[k]@ != n),
        (schema_state(names, types).2 is Some) <==> (exists|i: int, j: int|
            0 <= i < j < names.len() && names[i]@ == names[j]@),
        forall|e: TableError| schema_state(names, types).2 == Some(e) ==> (exists|i: int, j: int|
            0 <= i < j < names.len() && names[i]@ == names[j]@ && e
                == (TableError::ColumnDefinedTwiceError {
                column_name: names[j],
                first_type: types[i],
                second_type: types[j],
            })),
    decreases names.len(),
{
    if names.len() == 0 {
        assert(views_of(names) =~= Seq::<Seq<char>>::empty());
    } else {
        let n = names.len() - 1;
        let pn = names.drop_last();
        let pt = types.take(n);
        lemma_schema_uniqueness(pn, pt);
        let prev = schema_state(pn, pt);
        let name = names[n];
        assert(views_of(pn) =~= views_of(names).drop_last());
        assert forall|m: Seq<char>| #[trigger] schema_state(names, types).0.contains_key(m) <==> views_of(names).contains(m) by {
            if views_of(names).contains(m) {
                let k = choose|k: int| 0 <= k < views_of(names).len() && views_of(names)[k] == m;
                if k < n {
                    assert(views_of(pn)[k] == m);
                }
            }
            if views_of(pn).contains(m) {
                let k = choose|k: int| 0 <= k < views_of(pn).len() && views_of(pn)[k] == m;
                assert(views_of(names)[k] == m);
            }
            assert(views_of(names)[n] == name@);
        }
        assert forall|m: Seq<char>| #[trigger] schema_state(names, types).0.contains_key(m) implies exists|i: int|
            0 <= i < names.len() && names[i]@ == m && schema_state(names, types).0[m] == types[i]
                && forall|k: int| 0 <= k < i ==> names[k]@ != m by {
            if prev.0.contains_key(m) {
                let i = choose|i: int|
                    0 <= i < pn.len() && pn[i]@ == m && prev.0[m] == pt[i] && forall|k: int|
                        0 <= k < i ==> pn[k]@ != m;
                assert(names[i] == pn[i] && types[i] == pt[i]);
                assert forall|k: int| 0 <= k < i implies names[k]@ != m by {
                    assert(names[k] == pn[k]);
                }
            } else {
                assert(m == name@);
                assert forall|k: int| 0 <= k < n implies names[k]@ != m by {
                    assert(names[k] == pn[k]);
                    assert(views_of(pn)[k] == pn[k]@);
                }
            }
        }
        if prev.2 is None && prev.0.contains_key(name@) {
            let i = choose|i: int|
                0 <= i < pn.len() && pn[i]@ == name@ && prev.0[name@] == pt[i] && forall|k: int|
                    0 <= k < i ==> pn[k]@ != name@;
            assert(names[i] == pn[i] && types[i] == pt[i]);
        }
        if prev.2 is Some {
            let (i, j) = choose|i: int, j: int| 0 <= i < j < pn.len() && pn[i]@ == pn[j]@;
            assert(names[i] == pn[i] && names[j] == pn[j]);
        }
        if let Some(e) = prev.2 {
            let (i, j) = choose|i: int, j: int|
                0 <= i < j < pn.len() && pn[i]@ == pn[j]@ && e == TableError::ColumnDefinedTwiceError {
                    column_name: pn[j],
                    first_type: pt[i],
                    second_type: pt[j],
                };
            assert(names[i] == pn[i] && names[j] == pn[j] && types[i] == pt[i] && types[j] == pt[j]);
        }
        if exists|i: int, j: int| 0 <= i < j < names.len() && names[i]@ == names[j]@ {
            let (i, j) = choose|i: int, j: int| 0 <= i < j < names.len() && names[i]@ == names[j]@;
            if j < n {
                assert(pn[i] == names[i] && pn[j] == names[j]);
            } else {
                assert(views_of(pn)[i] == name@);
            }
        }
    }
}

/// The columns that an insert reports missing are exactly the schema's
/// columns, the key included, that the insert does not name.
pub proof fn lemma_missing_columns_complete(order: Seq<Seq<char>>, names: Seq<Seq<char>>)
    ensures
        forall|c: Seq<char>|
            #[trigger] missing_columns(order, names).contains(c) <==> (order.contains(c)
                && !names.contains(c)),
    decreases order.len(),
{
    if order.len() > 0 {
        let prev = order.drop_last();
        lemma_missing_columns_complete(prev, names);
        assert forall|c: Seq<char>| #[trigger] missing_columns(order, names).contains(c) <==> (
        order.contains(c) && !names.contains(c)) by {
            let rest = missing_columns(prev, names);
            if order.contains(c) && c != order.last() {
                let k = choose|k: int| 0 <= k < order.len() && order[k] == c;
                assert(prev[k] == c);
            }
            if prev.contains(c) {
                let k = choose|k: int| 0 <= k < prev.len() && prev[k] == c;
                assert(order[k] == c);
            }
            if missing_columns(order, names).contains(c) && c != order.last() {
                let k = choose|k: int|
                    0 <= k < missing_columns(order, names).len() && missing_columns(order, names)[k]
                        == c;
                assert(rest[k] == c);
            }
            if rest.contains(c) {
                let k = choose|k: int| 0 <= k < rest.len() && rest[k] == c;
                if !names.contains(order.last()) {
                    assert(rest.push(order.last())[k] == c);
                }
            }
            if c == order.last() && !names.contains(c) {
                assert(rest.push(c)[rest.len() as int] == c);
            }
            assert(order[order.len() - 1] == order.last());
        }
    }
}

/// Inserting twice the same accepted pairs: the first insert is accepted and
/// adds one key, the second is refused for the primary key.
pub proof fn lemma_primary_key_unique(
    s: Schema,
    keys: Seq<Value>,
    names: Seq<String>,
    values: Seq<Value>,
    p: int,
)
    requires
        insert_accepted(s, keys, names, values),
        placed_at(keys, insert_key(s, names, values), p),
    ensures
        keys.insert(p, insert_key(s, names, values)).len() == keys.len() + 1,
        !insert_accepted(s, keys.insert(p, insert_key(s, names, values)), names, values),
        insert_error(
            s,
            keys.insert(p, insert_key(s, names, values)),
            names,
            values,
            TableError::PrimaryKeyConstraintViolation(insert_key(s, names, values)),
        ),
{
    let kv = insert_key(s, names, values);
    let after = keys.insert(p, kv);
    crate::value::lemma_value_order_laws(kv, kv, kv);
    assert(after[p] == kv);
    assert(key_present(after, kv));
}

/// With a value whose type differs from its column's declared type, an
/// insert is never accepted; when every name is a column of the schema, the
/// pair check reports a type error.
pub proof fn lemma_type_mismatch_rejected(
    s: Schema,
    keys: Seq<Value>,
    names: Seq<String>,
    values: Seq<Value>,
    i: int,
)
    requires
        names.len() == values.len(),
        0 <= i < names.len(),
        s.columns.contains_key(names[i]@),
        s.columns[names[i]@] != type_of(values[i]),
    ensures
        !insert_accepted(s, keys, names, values),
        first_pair_error(s.columns, names, values) is Some,
        (forall|j: int| 0 <= j < names.len() ==> s.columns.contains_key(#[trigger] names[j]@))
            ==> is_type_error(first_pair_error(s.columns, names, values)),
    decreases names.len(),
{
    let n = names.len() - 1;
    let pn = names.drop_last();
    let pv = values.take(n);
    if i < n {
        assert(pn[i] == names[i] && pv[i] == values[i]);
        lemma_type_mismatch_rejected(s, keys, pn, pv, i);
        if forall|j: int| 0 <= j < names.len() ==> s.columns.contains_key(#[trigger] names[j]@) {
            assert forall|j: int| 0 <= j < pn.len() implies s.columns.contains_key(#[trigger] pn[j]@) by {
                assert(pn[j] == names[j]);
            }
        }
    } else {
        if first_pair_error(s.columns, pn, pv) is Some && forall|j: int|
            0 <= j < names.len() ==> s.columns.contains_key(#[trigger] names[j]@) {
            lemma_pair_errors_are_type_errors(s.columns, pn, pv);
            assert forall|j: int| 0 <= j < pn.len() implies s.columns.contains_key(#[trigger] pn[j]@) by {
                assert(pn[j] == names[j]);
            }
        }
    }
}

/// The error is a type mismatch on insert.
pub open spec fn is_type_error(e: Option<TableError>) -> bool {
    e matches Some(TableError::InsertInvalidColumnTypeError { .. })
}

/// Where every name is a column, the first bad pair is a type error.
proof fn lemma_pair_errors_are_type_errors(
    schema: Map<Seq<char>, ColumnType>,
    names: Seq<String>,
    values: Seq<Value>,
)
    requires
        names.len() <= values.len(),
    ensures
        (forall|j: int| 0 <= j < names.len() ==> schema.contains_key(#[trigger] names[j]@)) ==> (
        first_pair_error(schema, names, values) is None || is_type_error(
            first_pair_error(schema, names, values),
        )),
    decreases names.len(),
{
    if names.len() > 0 {
        let n = names.len() - 1;
        lemma_pair_errors_are_type_errors(schema, names.drop_last(), values.take(n));
        if forall|j: int| 0 <= j < names.len() ==> schema.contains_key(#[trigger] names[j]@) {
            assert forall|j: int| 0 <= j < n implies schema.contains_key(#[trigger] names.drop_last()[j]@) by {
                assert(names.drop_last()[j] == names[j]);
            }
            assert(schema.contains_key(names[n]@));
        }
    }
}

} // verus!
