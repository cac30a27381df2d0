use vstd::prelude::*;
use crate::database::{Database, DatabaseError, has_table};
use crate::filter::{AnyWhereFilter, filter_matches, filter_valid, filter_error};
use crate::key::DatabaseKey;
use crate::record::{RecordError, is_invalid_column};
use crate::table::{
    Table, TableError, build_error, insert_accepted, insert_error, insert_key, key_present,
    placed_at, schema_state,
};
use crate::value::{ColumnType, Value, value_same};
use crate::journal::{commands_in, commands_of, journal_of, journal_text};
use crate::record::{build_state, views_of};

verus! {

#[derive(Debug, PartialEq)]
pub enum CommandError {
    IoError(String),
    RecordError(RecordError),
    DatabaseError(DatabaseError),
    TableError(TableError),
    UnknownOperatorError(String),
    InvalidValueError { column_name: String, expected_type: String, got_type: String },
}

/// What a command hands back.
#[derive(Debug)]
pub enum CommandResult {
    Void,
    RecordValueList(Vec<String>, Vec<Vec<Value>>),
    CommandList(Vec<String>),
}

/// Creates a table in a database.
pub struct CreateCommand<'a, K: DatabaseKey> {
    pub database: &'a mut Database<K>,
    pub table_name: String,
    pub key_name: String,
    pub fields: Vec<String>,
    pub types: Vec<ColumnType>,
}

/// Inserts one record into a table.
pub struct InsertCommand<'a, K: DatabaseKey> {
    pub table: &'a mut Table<K>,
    pub fields: Vec<String>,
    pub values: Vec<Value>,
}

/// Deletes the record under one key.
pub struct DeleteCommand<'a, K: DatabaseKey> {
    pub table: &'a mut Table<K>,
    pub key: K,
}

/// Projects the records that a WHERE clause matches.
pub struct SelectCommand<'a, K: DatabaseKey> {
    pub table: &'a Table<K>,
    pub selected_columns: Vec<String>,
    pub where_filter: AnyWhereFilter,
}

/// Writes every command accepted so far to a file, one per line.
pub struct SaveAsCommand<'a> {
    pub file_name: String,
    pub lines: &'a Vec<String>,
}

/// Reads the commands of a file written by `SaveAsCommand`.
pub struct ReadFromCommand {
    pub file_name: String,
}

impl<'a> SaveAsCommand<'a> {
    /// What the file receives: each command followed by a line break.
    pub fn contents(&self) -> (r: String)
        ensures
            r@ == journal_text(views_of(self.lines@)),
    {
        journal_of(self.lines)
    }
}

impl ReadFromCommand {
    /// The result for a file holding `contents`: its lines, trimmed, the
    /// empty ones left out.
    pub fn commands(&self, contents: &str) -> (r: CommandResult)
        ensures
            r matches CommandResult::CommandList(l) && views_of(l@) == commands_of(contents@),
    {
        CommandResult::CommandList(commands_in(contents))
    }
}

/// How many (field, type) pairs a table is created from: as many as the
/// shorter list holds.
pub open spec fn pair_count(fields: nat, types: nat) -> int {
    if fields <= types {
        fields as int
    } else {
        types as int
    }
}

impl<'a, K: DatabaseKey> CreateCommand<'a, K> {
    pub fn execute(self) -> (r: Result<CommandResult, CommandError>)
        requires
            old(self.database).wf(),
        ensures
            final(self.database).wf(),
            ({
                let n = pair_count(self.fields@.len(), self.types@.len());
                let names = self.fields@.take(n);
                let tys = self.types@.take(n);
                if has_table(old(self.database).tables(), self.table_name@) {
                    r == Err::<CommandResult, CommandError>(
                        CommandError::DatabaseError(
                            DatabaseError::TableAlreadyExistsError(self.table_name),
                        ),
                    ) && final(self.database).tables() == old(self.database).tables()
                } else if build_error(names, tys, self.key_name, K::key_type()) is Some {
                    build_error(names, tys, self.key_name, K::key_type()) matches Some(te) && r
                        == Err::<CommandResult, CommandError>(
                        CommandError::DatabaseError(DatabaseError::TableError(te)),
                    ) && final(self.database).tables() == old(self.database).tables()
                } else {
                    &&& r matches Ok(CommandResult::Void)
                    &&& final(self.database).tables().drop_last() == old(self.database).tables()
                    &&& final(self.database).tables().last().name_view() == self.table_name@
                    &&& final(self.database).tables().last().schema().key_name == self.key_name
                    &&& final(self.database).tables().last().schema().columns == schema_state(
                        names,
                        tys,
                    ).0.insert(self.key_name@, K::key_type())
                    &&& final(self.database).tables().last().schema().order == schema_state(
                        names,
                        tys,
                    ).1.push(self.key_name@)
                    &&& final(self.database).tables().last().keys().len() == 0
                }
            }),
    {
        match self.database.create_table(self.table_name, self.key_name, self.fields, self.types) {
            Ok(()) => Ok(CommandResult::Void),
            Err(e) => Err(CommandError::DatabaseError(e)),
        }
    }
}

impl<'a, K: DatabaseKey> InsertCommand<'a, K> {
    pub fn execute(self) -> (r: Result<CommandResult, CommandError>)
        requires
            old(self.table).wf(),
        ensures
            final(self.table).wf(),
            final(self.table).name_view() == old(self.table).name_view(),
            r is Ok == insert_accepted(
                old(self.table).schema(),
                old(self.table).keys(),
                self.fields@,
                self.values@,
            ),
            r matches Ok(res) ==> res is Void && exists|p: int|
                placed_at(
                    old(self.table).keys(),
                    insert_key(old(self.table).schema(), self.fields@, self.values@),
                    p,
                ) && final(self.table).keys() == old(self.table).keys().insert(
                    p,
                    insert_key(old(self.table).schema(), self.fields@, self.values@),
                ) && final(self.table).rows() == old(self.table).rows().insert(
                    p,
                    build_state(self.fields@, self.values@).0,
                ),
            r matches Err(e) ==> e matches CommandError::TableError(te) && insert_error(
                old(self.table).schema(),
                old(self.table).keys(),
                self.fields@,
                self.values@,
                te,
            ) && final(self.table).keys() == old(self.table).keys() && final(self.table).rows()
                == old(self.table).rows(),
    {
        match self.table.insert(self.fields, self.values) {
            Ok(()) => Ok(CommandResult::Void),
            Err(e) => Err(CommandError::TableError(e)),
        }
    }
}

impl<'a, K: DatabaseKey> DeleteCommand<'a, K> {
    pub fn execute(self) -> (r: Result<CommandResult, CommandError>)
        requires
            old(self.table).wf(),
        ensures
            final(self.table).wf(),
            final(self.table).name_view() == old(self.table).name_view(),
            r is Ok == key_present(old(self.table).keys(), self.key.key_value()),
            r matches Ok(res) ==> res is Void && exists|j: int|
                0 <= j < old(self.table).keys().len() && value_same(
                    old(self.table).keys()[j],
                    self.key.key_value(),
                ) && final(self.table).keys()
                    == old(self.table).keys().remove(j) && final(self.table).rows()
                    == old(self.table).rows().remove(j),
            r matches Err(e) ==> e == CommandError::TableError(
                TableError::KeyNotFoundError(self.key.key_value()),
            ) && final(self.table).keys() == old(self.table).keys() && final(self.table).rows()
                == old(self.table).rows(),
    {
        match self.table.delete(self.key) {
            Ok(()) => Ok(CommandResult::Void),
            Err(e) => Err(CommandError::TableError(e)),
        }
    }
}

/// The rows that the filter matches, in order.
pub open spec fn matching_rows(f: AnyWhereFilter, rows: Seq<Map<Seq<char>, Value>>) -> Seq<
    Map<Seq<char>, Value>,
>
    decreases rows.len(),
{
    if rows.len() == 0 {
        Seq::empty()
    } else {
        let prev = matching_rows(f, rows.drop_last());
        if filter_matches(f, rows.last()) {
            prev.push(rows.last())
        } else {
            prev
        }
    }
}

/// The values of the named columns of a row, in the order named.
pub open spec fn project(row: Map<Seq<char>, Value>, columns: Seq<String>) -> Seq<Value> {
    columns.map_values(|c: String| row[c@])
}

/// The row holds every named column.
pub open spec fn has_columns(row: Map<Seq<char>, Value>, columns: Seq<String>) -> bool {
    forall|k: int| 0 <= k < columns.len() ==> row.contains_key(#[trigger] columns[k]@)
}

/// `e` is the error of the first row, in order, on which the filter is ill formed.
pub open spec fn first_invalid_row(
    f: AnyWhereFilter,
    rows: Seq<Map<Seq<char>, Value>>,
    e: CommandError,
) -> bool {
    exists|i: int|
        0 <= i < rows.len() && (forall|j: int| 0 <= j < i ==> filter_valid(f, #[trigger] rows[j]))
            && filter_error(f, rows[i], e)
}

/// `e` is the error of projecting the first matched row that lacks a
/// selected column: the first such column.
pub open spec fn first_projection_error(
    matched: Seq<Map<Seq<char>, Value>>,
    columns: Seq<String>,
    e: CommandError,
) -> bool {
    exists|i: int, k: int|
        0 <= i < matched.len() && 0 <= k < columns.len() && (forall|j: int|
            0 <= j < i ==> has_columns(#[trigger] matched[j], columns)) && (forall|l: int|
            0 <= l < k ==> matched[i].contains_key(#[trigger] columns[l]@)) && !matched[i].contains_key(
            columns[k]@,
        ) && (e matches CommandError::RecordError(re) && is_invalid_column(re, columns[k]@))
}

impl<'a, K: DatabaseKey> SelectCommand<'a, K> {
    pub fn new(table: &'a Table<K>, selected_columns: Vec<String>, where_filter: AnyWhereFilter) -> (r:
        Self)
        ensures
            r.table == table,
            r.selected_columns == selected_columns,
            r.where_filter == where_filter,
    {
        SelectCommand { table, selected_columns, where_filter }
    }

    /// Validates the WHERE clause on every record, then projects the
    /// selected columns of the records it matches, in key order.
    pub fn execute(self) -> (r: Result<CommandResult, CommandError>)
        requires
            self.table.wf(),
        ensures
            ({
                let rows = self.table.rows();
                let matched = matching_rows(self.where_filter, rows);
                if exists|i: int| 0 <= i < rows.len() && !filter_valid(self.where_filter, #[trigger] rows[i]) {
                    r matches Err(e) && first_invalid_row(self.where_filter, rows, e)
                } else if exists|i: int| 0 <= i < matched.len() && !has_columns(#[trigger] matched[i], self.selected_columns@) {
                    r matches Err(e) && first_projection_error(matched, self.selected_columns@, e)
                } else {
                    r matches Ok(CommandResult::RecordValueList(cols, data)) && cols == self.selected_columns
                        && data@.len() == matched.len() && forall|i: int|
                        0 <= i < matched.len() ==> (#[trigger] data@[i])@ == project(
                            matched[i],
                            self.selected_columns@,
                        )
                }
            }),
    {
        let n = self.table.record_count();
        let ghost rows = self.table.rows();
        let mut i: usize = 0;
        while i < n
            invariant
                i <= n,
                n == rows.len(),
                rows == self.table.rows(),
                self.table.wf(),
                forall|j: int| 0 <= j < i ==> filter_valid(self.where_filter, #[trigger] rows[j]),
            decreases n - i,
        {
            match self.where_filter.validate_filtering(self.table.record_at(i)) {
                Ok(()) => {},
                Err(e) => {
                    return Err(e);
                },
            }
            i = i + 1;
        }
        let mut names: Vec<&str> = Vec::new();
        let mut c: usize = 0;
        while c < self.selected_columns.len()
            invariant
                c <= self.selected_columns@.len(),
                names@.len() == c,
                forall|l: int| 0 <= l < c ==> (#[trigger] names@[l])@ == self.selected_columns@[l]@,
            decreases self.selected_columns@.len() - c,
        {
            names.push(self.selected_columns[c].as_str());
            c = c + 1;
        }
        let mut data: Vec<Vec<Value>> = Vec::new();
        let mut j: usize = 0;
        while j < n
            invariant
                j <= n,
                n == rows.len(),
                rows == self.table.rows(),
                self.table.wf(),
                forall|l: int| 0 <= l < n ==> filter_valid(self.where_filter, #[trigger] rows[l]),
                names@.len() == self.selected_columns@.len(),
                forall|l: int| 0 <= l < names@.len() ==> (#[trigger] names@[l])@ == self.selected_columns@[l]@,
                data@.len() == matching_rows(self.where_filter, rows.take(j as int)).len(),
                forall|l: int| 0 <= l < data@.len() ==> has_columns(
                    #[trigger] matching_rows(self.where_filter, rows.take(j as int))[l],
                    self.selected_columns@,
                ),
                forall|l: int| 0 <= l < data@.len() ==> (#[trigger] data@[l])@ == project(
                    matching_rows(self.where_filter, rows.take(j as int))[l],
                    self.selected_columns@,
                ),
            decreases n - j,
        {
            let record = self.table.record_at(j);
            proof {
                assert(rows.take(j + 1).drop_last() =~= rows.take(j as int));
                lemma_matching_prefix(self.where_filter, rows, j as int);
            }
            if self.where_filter.filter_record(record) {
                match record.get_values(&names) {
                    Ok(vs) => {
                        proof {
                            assert(vs@ =~= project(record@, self.selected_columns@));
                            assert forall|k: int| 0 <= k < self.selected_columns@.len() implies record@.contains_key(
                                #[trigger] self.selected_columns@[k]@,
                            ) by {
                                assert(names@[k]@ == self.selected_columns@[k]@);
                            }
                            assert(has_columns(record@, self.selected_columns@));
                        }
                        data.push(vs);
                    },
                    Err(e) => {
                        proof {
                            lemma_matching_prefix_stable(self.where_filter, rows, j as int + 1);
                            let m = matching_rows(self.where_filter, rows);
                            let i0 = data@.len() as int;
                            assert(m[i0] == record@);
                            let k = choose|k: int|
                                0 <= k < names@.len() && !record@.contains_key(names@[k]@) && (forall|l: int|
                                    0 <= l < k ==> record@.contains_key(names@[l]@)) && is_invalid_column(
                                    e,
                                    names@[k]@,
                                );
                            assert(!has_columns(m[i0], self.selected_columns@));
                            assert forall|l: int| 0 <= l < k implies m[i0].contains_key(
                                #[trigger] self.selected_columns@[l]@,
                            ) by {
                                assert(names@[l]@ == self.selected_columns@[l]@);
                            }
                        }
                        return Err(CommandError::RecordError(e));
                    },
                }
            }
            j = j + 1;
        }
        proof {
            assert(rows.take(n as int) =~= rows);
        }
        Ok(CommandResult::RecordValueList(self.selected_columns, data))
    }
}

/// Matching one more row appends it when the filter matches it.
proof fn lemma_matching_prefix(f: AnyWhereFilter, rows: Seq<Map<Seq<char>, Value>>, j: int)
    requires
        0 <= j < rows.len(),
    ensures
        matching_rows(f, rows.take(j + 1)) == if filter_matches(f, rows[j]) {
            matching_rows(f, rows.take(j)).push(rows[j])
        } else {
            matching_rows(f, rows.take(j))
        },
{
    assert(rows.take(j + 1).drop_last() =~= rows.take(j));
}

/// The matches of a prefix are a prefix of the matches.
proof fn lemma_matching_prefix_stable(f: AnyWhereFilter, rows: Seq<Map<Seq<char>, Value>>, j: int)
    requires
        0 <= j <= rows.len(),
    ensures
        matching_rows(f, rows.take(j)).len() <= matching_rows(f, rows).len(),
        forall|l: int|
            0 <= l < matching_rows(f, rows.take(j)).len() ==> #[trigger] matching_rows(f, rows)[l]
                == matching_rows(f, rows.take(j))[l],
    decreases rows.len() - j,
{
    if j < rows.len() {
        lemma_matching_prefix(f, rows, j);
        lemma_matching_prefix_stable(f, rows, j + 1);
    } else {
        assert(rows.take(j) =~= rows);
    }
}

} // verus!
