use vstd::prelude::*;
use crate::key::DatabaseKey;
use crate::table::{Table, TableBuilder, TableError, schema_state, build_error};
use crate::value::{ColumnType, same_text};
use vstd::string::StringExecFns;

verus! {

#[derive(Debug, PartialEq)]
pub enum DatabaseError {
    TableAlreadyExistsError(String),
    TableError(TableError),
    TableNotFoundError(String),
}

/// Tables looked up by name; no two share a name.
pub struct Database<K: DatabaseKey> {
    tables: Vec<Table<K>>,
}

/// Some table of the list is named `name`.
pub open spec fn has_table<K: DatabaseKey>(tables: Seq<Table<K>>, name: Seq<char>) -> bool {
    exists|i: int| 0 <= i < tables.len() && #[trigger] tables[i].name_view() == name
}

pub open spec fn tables_wf<K: DatabaseKey>(tables: Seq<Table<K>>) -> bool {
    &&& forall|i: int| 0 <= i < tables.len() ==> #[trigger] tables[i].wf()
    &&& forall|i: int, j: int|
        0 <= i < j < tables.len() ==> tables[i].name_view() != tables[j].name_view()
}

impl<K: DatabaseKey> Default for Database<K> {
    fn default() -> (r: Self)
        ensures
            r.wf(),
            r.tables().len() == 0,
    {
        Self::new()
    }
}

impl<K: DatabaseKey> Database<K> {
    /// The tables, in the order they were created.
    pub closed spec fn tables(&self) -> Seq<Table<K>> {
        self.tables@
    }

    pub open spec fn wf(&self) -> bool {
        tables_wf(self.tables())
    }

    pub fn new() -> (r: Self)
        ensures
            r.wf(),
            r.tables().len() == 0,
    {
        Database { tables: Vec::new() }
    }

    /// The position of the table named `name`.
    fn find_table(&self, name: &str) -> (r: Option<usize>)
        ensures
            match r {
                Some(i) => i < self.tables().len() && self.tables()[i as int].name_view() == name@,
                None => !has_table(self.tables(), name@),
            },
    {
        let mut i: usize = 0;
        while i < self.tables.len()
            invariant
                i <= self.tables@.len(),
                forall|j: int| 0 <= j < i ==> self.tables@[j].name_view() != name@,
            decreases self.tables@.len() - i,
        {
            if same_text(self.tables[i].get_name(), name) {
                return Some(i);
            }
            i = i + 1;
        }
        None
    }

    /// Creates a table from the pairs `(fields[i], types[i])` (as many as the
    /// shorter list holds) and the key column, whose type is the key's.
    pub fn create_table(
        &mut self,
        table_name: String,
        key_name: String,
        fields: Vec<String>,
        types: Vec<ColumnType>,
    ) -> (r: Result<(), DatabaseError>)
        requires
            old(self).wf(),
        ensures
            final(self).wf(),
            ({
                let n = if fields@.len() <= types@.len() {
                    fields@.len()
                } else {
                    types@.len()
                };
                let st = schema_state(fields@.take(n as int), types@.take(n as int));
                let err = build_error(
                    fields@.take(n as int),
                    types@.take(n as int),
                    key_name,
                    K::key_type(),
                );
                if has_table(old(self).tables(), table_name@) {
                    r == Err::<(), DatabaseError>(DatabaseError::TableAlreadyExistsError(table_name))
                        && final(self).tables() == old(self).tables()
                } else if err is Some {
                    err matches Some(e) && r == Err::<(), DatabaseError>(
                        DatabaseError::TableError(e),
                    ) && final(self).tables() == old(self).tables()
                } else {
                    &&& r is Ok
                    &&& final(self).tables().len() == old(self).tables().len() + 1
                    &&& final(self).tables().drop_last() == old(self).tables()
                    &&& final(self).tables().last().name_view() == table_name@
                    &&& final(self).tables().last().schema().key_name == key_name
                    &&& final(self).tables().last().schema().columns == st.0.insert(
                        key_name@,
                        K::key_type(),
                    )
                    &&& final(self).tables().last().schema().order == st.1.push(key_name@)
                    &&& final(self).tables().last().keys().len() == 0
                }
            }),
    {
        match self.find_table(table_name.as_str()) {
            Some(_) => {
                return Err(DatabaseError::TableAlreadyExistsError(table_name));
            },
            None => {},
        }
        let ghost name_view = table_name@;
        let ghost n = if fields@.len() <= types@.len() {
            fields@.len()
        } else {
            types@.len()
        };
        let ghost names = fields@.take(n as int);
        let ghost tys = types@.take(n as int);
        let mut builder: TableBuilder<K> = Table::<K>::new_builder(table_name, key_name);
        let mut i: usize = 0;
        while i < fields.len() && i < types.len()
            invariant
                i <= n,
                n <= fields@.len(),
                n <= types@.len(),
                n == fields@.len() || n == types@.len(),
                names == fields@.take(n as int),
                tys == types@.take(n as int),
                builder.wf(),
                builder.table_name() == name_view,
                builder.key_name() == key_name,
                builder.columns_so_far() == schema_state(names.take(i as int), tys.take(i as int)).0,
                builder.order_so_far() == schema_state(names.take(i as int), tys.take(i as int)).1,
                builder.first_error() == schema_state(names.take(i as int), tys.take(i as int)).2,
            decreases n - i,
        {
            proof {
                assert(names.take(i + 1).drop_last() =~= names.take(i as int));
                assert(tys.take(i + 1).take(i as int) =~= tys.take(i as int));
                assert(names[i as int] == fields@[i as int]);
                assert(tys[i as int] == types@[i as int]);
            }
            builder = builder.with_column(fields[i].clone(), types[i]);
            i = i + 1;
        }
        proof {
            assert(names.take(n as int) =~= names);
            assert(tys.take(n as int) =~= tys);
        }
        let table = match builder.build() {
            Ok(t) => t,
            Err(e) => {
                return Err(DatabaseError::TableError(e));
            },
        };
        let ghost old_tables = self.tables@;
        self.tables.push(table);
        proof {
            assert(self.tables@.drop_last() =~= old_tables);
            assert forall|a: int, b: int|
                0 <= a < b < self.tables@.len() implies self.tables@[a].name_view()
                != self.tables@[b].name_view() by {
                if b == self.tables@.len() - 1 {
                    assert(old_tables[a] == self.tables@[a]);
                }
            }
        }
        Ok(())
    }

    /// The table named `table_name`, to read or change.
    pub fn get_table(&mut self, table_name: &str) -> (r: Result<&mut Table<K>, DatabaseError>)
        ensures
            match r {
                Ok(t) => exists|i: int|
                    0 <= i < old(self).tables().len() && old(self).tables()[i].name_view()
                        == table_name@ && *t == old(self).tables()[i] && final(self).tables()
                        == old(self).tables().update(i, *final(t)),
                Err(e) => {
                    &&& !has_table(old(self).tables(), table_name@)
                    &&& e matches DatabaseError::TableNotFoundError(s) && s@ == table_name@
                    &&& final(self).tables() == old(self).tables()
                },
            },
    {
        match self.find_table(table_name) {
            Some(i) => Ok(&mut self.tables[i]),
            None => Err(DatabaseError::TableNotFoundError(String::from_str(table_name))),
        }
    }

    /// The names of the tables, in the order they were created.
    pub fn get_table_names(&self) -> (r: Vec<&str>)
        ensures
            r@.len() == self.tables().len(),
            forall|i: int| 0 <= i < r@.len() ==> r@[i]@ == self.tables()[i].name_view(),
    {
        let mut out: Vec<&str> = Vec::new();
        let mut i: usize = 0;
        while i < self.tables.len()
            invariant
                i <= self.tables@.len(),
                out@.len() == i,
                forall|j: int| 0 <= j < i ==> out@[j]@ == self.tables@[j].name_view(),
            decreases self.tables@.len() - i,
        {
            out.push(self.tables[i].get_name());
            i = i + 1;
        }
        out
    }
}

} // verus!
