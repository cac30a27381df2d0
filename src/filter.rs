use vstd::prelude::*;
use crate::command::CommandError;
use crate::record::{Record, is_invalid_column};
use crate::value::{
    Value, type_of, type_name_of, operator_of, operator_holds, parse_operator, apply_operator,
};

verus! {

/// Matches every record.
#[derive(Debug)]
pub struct NoOpWhereFilter {}

/// Matches a record that all of its filters match.
#[derive(Debug)]
pub struct And {
    pub filters: Vec<Box<AnyWhereFilter>>,
}

/// Matches a record that one of its filters matches.
#[derive(Debug)]
pub struct Or {
    pub filters: Vec<Box<AnyWhereFilter>>,
}

/// Compares a column with a literal: `column_name op value`.
#[derive(Debug)]
pub struct ValueOperatorFilter {
    pub column_name: String,
    pub op: String,
    pub value: Value,
}

/// Compares two columns of the same record: `column_name1 op column_name2`.
#[derive(Debug)]
pub struct ColumnOperatorFilter {
    pub column_name1: String,
    pub op: String,
    pub column_name2: String,
}

/// A WHERE clause.
#[derive(Debug)]
pub enum AnyWhereFilter {
    NoOp(NoOpWhereFilter),
    And(And),
    Or(Or),
    ValueOperator(ValueOperatorFilter),
    ColumnOperator(ColumnOperatorFilter),
}

/// `column op lit` holds on record `r`.
pub open spec fn compare_matches(
    column: Seq<char>,
    op: Seq<char>,
    lit: Value,
    r: Map<Seq<char>, Value>,
) -> bool {
    &&& r.contains_key(column)
    &&& type_of(r[column]) == type_of(lit)
    &&& operator_of(op) matches Some(o) && operator_holds(o, r[column], lit)
}

/// `column op lit` is well formed on record `r`.
pub open spec fn compare_valid(
    column: Seq<char>,
    op: Seq<char>,
    lit: Value,
    r: Map<Seq<char>, Value>,
) -> bool {
    &&& r.contains_key(column)
    &&& type_of(r[column]) == type_of(lit)
    &&& operator_of(op) is Some
}

/// `e` is the error that checking `column op lit` on `r` reports.
pub open spec fn compare_error(
    column: Seq<char>,
    op: Seq<char>,
    lit: Value,
    r: Map<Seq<char>, Value>,
    e: CommandError,
) -> bool {
    if !r.contains_key(column) {
        e matches CommandError::RecordError(re) && is_invalid_column(re, column)
    } else if type_of(r[column]) != type_of(lit) {
        e matches CommandError::InvalidValueError { column_name, expected_type, got_type }
            && column_name@ == column && expected_type@ == type_name_of(type_of(r[column]))
            && got_type@ == type_name_of(type_of(lit))
    } else if operator_of(op) is None {
        e matches CommandError::UnknownOperatorError(o) && o@ == op
    } else {
        false
    }
}

/// The filter matches record `r`.
pub open spec fn filter_matches(f: AnyWhereFilter, r: Map<Seq<char>, Value>) -> bool
    decreases f,
{
    match f {
        AnyWhereFilter::NoOp(_) => true,
        AnyWhereFilter::And(a) => forall|i: int|
            0 <= i < a.filters@.len() ==> filter_matches(*#[trigger] a.filters@[i], r),
        AnyWhereFilter::Or(o) => exists|i: int|
            0 <= i < o.filters@.len() && filter_matches(*#[trigger] o.filters@[i], r),
        AnyWhereFilter::ValueOperator(v) => compare_matches(v.column_name@, v.op@, v.value, r),
        AnyWhereFilter::ColumnOperator(c) => r.contains_key(c.column_name2@) && compare_matches(
            c.column_name1@,
            c.op@,
            r[c.column_name2@],
            r,
        ),
    }
}

/// Every comparison of the filter is well formed on record `r`.
pub open spec fn filter_valid(f: AnyWhereFilter, r: Map<Seq<char>, Value>) -> bool
    decreases f,
{
    match f {
        AnyWhereFilter::NoOp(_) => true,
        AnyWhereFilter::And(a) => forall|i: int|
            0 <= i < a.filters@.len() ==> filter_valid(*#[trigger] a.filters@[i], r),
        AnyWhereFilter::Or(o) => forall|i: int|
            0 <= i < o.filters@.len() ==> filter_valid(*#[trigger] o.filters@[i], r),
        AnyWhereFilter::ValueOperator(v) => compare_valid(v.column_name@, v.op@, v.value, r),
        AnyWhereFilter::ColumnOperator(c) => r.contains_key(c.column_name2@) && compare_valid(
            c.column_name1@,
            c.op@,
            r[c.column_name2@],
            r,
        ),
    }
}

/// `e` is the error that validating the filter on record `r` reports: the
/// first ill-formed comparison, children checked in order.
pub open spec fn filter_error(f: AnyWhereFilter, r: Map<Seq<char>, Value>, e: CommandError) -> bool
    decreases f,
{
    match f {
        AnyWhereFilter::NoOp(_) => false,
        AnyWhereFilter::And(a) => exists|i: int|
            0 <= i < a.filters@.len() && (forall|j: int|
                0 <= j < i ==> filter_valid(*#[trigger] a.filters@[j], r)) && filter_error(
                *#[trigger] a.filters@[i],
                r,
                e,
            ),
        AnyWhereFilter::Or(o) => exists|i: int|
            0 <= i < o.filters@.len() && (forall|j: int|
                0 <= j < i ==> filter_valid(*#[trigger] o.filters@[j], r)) && filter_error(
                *#[trigger] o.filters@[i],
                r,
                e,
            ),
        AnyWhereFilter::ValueOperator(v) => compare_error(v.column_name@, v.op@, v.value, r, e),
        AnyWhereFilter::ColumnOperator(c) => if !r.contains_key(c.column_name2@) {
            e matches CommandError::RecordError(re) && is_invalid_column(re, c.column_name2@)
        } else {
            compare_error(c.column_name1@, c.op@, r[c.column_name2@], r, e)
        },
    }
}

/// Evaluates `column op lit` on a record; false where the column is absent,
/// the types differ or the operator is unknown.
fn compare_record(column: &str, op: &str, lit: &Value, record: &Record) -> (r: bool)
    ensures
        r == compare_matches(column@, op@, *lit, record@),
{
    let val = match record.get_value(column) {
        Ok(v) => v,
        Err(_) => {
            return false;
        },
    };
    if !val.is_the_same_type_as(lit) {
        return false;
    }
    match parse_operator(op) {
        Some(o) => apply_operator(o, val, lit),
        None => false,
    }
}

/// Checks that `column op lit` is well formed on a record.
fn validate_compare(column: &String, op: &String, lit: &Value, record: &Record) -> (r: Result<
    (),
    CommandError,
>)
    ensures
        r is Ok == compare_valid(column@, op@, *lit, record@),
        r matches Err(e) ==> compare_error(column@, op@, *lit, record@, e),
{
    let val = match record.get_value(column.as_str()) {
        Ok(v) => v,
        Err(e) => {
            return Err(CommandError::RecordError(e));
        },
    };
    if !val.is_the_same_type_as(lit) {
        return Err(
            CommandError::InvalidValueError {
                column_name: column.clone(),
                expected_type: val.type_keyword(),
                got_type: lit.type_keyword(),
            },
        );
    }
    match parse_operator(op.as_str()) {
        Some(_) => Ok(()),
        None => Err(CommandError::UnknownOperatorError(op.clone())),
    }
}

impl NoOpWhereFilter {
    pub fn filter_record(&self, _record: &Record) -> (r: bool)
        ensures
            r,
    {
        true
    }

    pub fn validate_filtering(&self, _record: &Record) -> (r: Result<(), CommandError>)
        ensures
            r is Ok,
    {
        Ok(())
    }

    pub fn to_enum(self) -> (r: AnyWhereFilter)
        ensures
            r == AnyWhereFilter::NoOp(self),
    {
        AnyWhereFilter::NoOp(self)
    }
}

impl ValueOperatorFilter {
    pub fn filter_record(&self, record: &Record) -> (r: bool)
        ensures
            r == compare_matches(self.column_name@, self.op@, self.value, record@),
    {
        compare_record(self.column_name.as_str(), self.op.as_str(), &self.value, record)
    }

    pub fn validate_filtering(&self, record: &Record) -> (r: Result<(), CommandError>)
        ensures
            r is Ok == compare_valid(self.column_name@, self.op@, self.value, record@),
            r matches Err(e) ==> compare_error(
                self.column_name@,
                self.op@,
                self.value,
                record@,
                e,
            ),
    {
        validate_compare(&self.column_name, &self.op, &self.value, record)
    }

    pub fn to_enum(self) -> (r: AnyWhereFilter)
        ensures
            r == AnyWhereFilter::ValueOperator(self),
    {
        AnyWhereFilter::ValueOperator(self)
    }
}

impl ColumnOperatorFilter {
    /// Reads `column_name2` on the record and compares `column_name1` with it.
    pub fn filter_record(&self, record: &Record) -> (r: bool)
        ensures
            r == filter_matches(AnyWhereFilter::ColumnOperator(*self), record@),
    {
        let value = match record.get_value(self.column_name2.as_str()) {
            Ok(v) => v,
            Err(_) => {
                return false;
            },
        };
        compare_record(self.column_name1.as_str(), self.op.as_str(), value, record)
    }

    pub fn validate_filtering(&self, record: &Record) -> (r: Result<(), CommandError>)
        ensures
            r is Ok == filter_valid(AnyWhereFilter::ColumnOperator(*self), record@),
            r matches Err(e) ==> filter_error(AnyWhereFilter::ColumnOperator(*self), record@, e),
    {
        let value = match record.get_value(self.column_name2.as_str()) {
            Ok(v) => v,
            Err(e) => {
                return Err(CommandError::RecordError(e));
            },
        };
        validate_compare(&self.column_name1, &self.op, value, record)
    }

    pub fn to_enum(self) -> (r: AnyWhereFilter)
        ensures
            r == AnyWhereFilter::ColumnOperator(self),
    {
        AnyWhereFilter::ColumnOperator(self)
    }
}

impl And {
    pub fn to_enum(self) -> (r: AnyWhereFilter)
        ensures
            r == AnyWhereFilter::And(self),
    {
        AnyWhereFilter::And(self)
    }
}

impl Or {
    pub fn to_enum(self) -> (r: AnyWhereFilter)
        ensures
            r == AnyWhereFilter::Or(self),
    {
        AnyWhereFilter::Or(self)
    }
}

impl AnyWhereFilter {
    pub fn to_box(self) -> (r: Box<Self>)
        ensures
            *r == self,
    {
        Box::new(self)
    }

    pub fn filter_record(&self, record: &Record) -> (r: bool)
        ensures
            r == filter_matches(*self, record@),
        decreases self,
    {
        match self {
            AnyWhereFilter::NoOp(f) => f.filter_record(record),
            AnyWhereFilter::And(a) => all_match(self, &a.filters, record),
            AnyWhereFilter::Or(o) => any_match(self, &o.filters, record),
            AnyWhereFilter::ValueOperator(v) => v.filter_record(record),
            AnyWhereFilter::ColumnOperator(c) => c.filter_record(record),
        }
    }

    pub fn validate_filtering(&self, record: &Record) -> (r: Result<(), CommandError>)
        ensures
            r is Ok == filter_valid(*self, record@),
            r matches Err(e) ==> filter_error(*self, record@, e),
        decreases self,
    {
        match self {
            AnyWhereFilter::NoOp(f) => f.validate_filtering(record),
            AnyWhereFilter::And(a) => validate_children(self, &a.filters, record),
            AnyWhereFilter::Or(o) => validate_children(self, &o.filters, record),
            AnyWhereFilter::ValueOperator(v) => v.validate_filtering(record),
            AnyWhereFilter::ColumnOperator(c) => c.validate_filtering(record),
        }
    }
}

/// Whether every filter of the list matches.
fn all_match(parent: &AnyWhereFilter, filters: &Vec<Box<AnyWhereFilter>>, record: &Record) -> (r:
    bool)
    requires
        forall|i: int| 0 <= i < filters@.len() ==> decreases_to!(*parent => *#[trigger] filters@[i]),
    ensures
        r == forall|i: int|
            0 <= i < filters@.len() ==> filter_matches(*#[trigger] filters@[i], record@),
    decreases parent, 0int,
{
    let mut i: usize = 0;
    while i < filters.len()
        invariant
            i <= filters@.len(),
            forall|j: int| 0 <= j < filters@.len() ==> decreases_to!(*parent => *#[trigger] filters@[j]),
            forall|j: int| 0 <= j < i ==> filter_matches(*#[trigger] filters@[j], record@),
        decreases filters@.len() - i,
    {
        if !filters[i].filter_record(record) {
            return false;
        }
        i = i + 1;
    }
    true
}

/// Whether some filter of the list matches.
fn any_match(parent: &AnyWhereFilter, filters: &Vec<Box<AnyWhereFilter>>, record: &Record) -> (r:
    bool)
    requires
        forall|i: int| 0 <= i < filters@.len() ==> decreases_to!(*parent => *#[trigger] filters@[i]),
    ensures
        r == exists|i: int|
            0 <= i < filters@.len() && filter_matches(*#[trigger] filters@[i], record@),
    decreases parent, 0int,
{
    let mut i: usize = 0;
    while i < filters.len()
        invariant
            i <= filters@.len(),
            forall|j: int| 0 <= j < filters@.len() ==> decreases_to!(*parent => *#[trigger] filters@[j]),
            forall|j: int| 0 <= j < i ==> !filter_matches(*#[trigger] filters@[j], record@),
        decreases filters@.len() - i,
    {
        if filters[i].filter_record(record) {
            return true;
        }
        i = i + 1;
    }
    false
}

/// Validates each child in order; the first error wins.
fn validate_children(
    parent: &AnyWhereFilter,
    filters: &Vec<Box<AnyWhereFilter>>,
    record: &Record,
) -> (r: Result<(), CommandError>)
    requires
        forall|i: int| 0 <= i < filters@.len() ==> decreases_to!(*parent => *#[trigger] filters@[i]),
    ensures
        r is Ok == forall|i: int| 0 <= i < filters@.len() ==> filter_valid(*#[trigger] filters@[i], record@),
        r matches Err(e) ==> exists|i: int|
            0 <= i < filters@.len() && (forall|j: int|
                0 <= j < i ==> filter_valid(*#[trigger] filters@[j], record@)) && filter_error(
                *#[trigger] filters@[i],
                record@,
                e,
            ),
    decreases parent, 0int,
{
    let mut i: usize = 0;
    while i < filters.len()
        invariant
            i <= filters@.len(),
            forall|j: int| 0 <= j < filters@.len() ==> decreases_to!(*parent => *#[trigger] filters@[j]),
            forall|j: int| 0 <= j < i ==> filter_valid(*#[trigger] filters@[j], record@),
        decreases filters@.len() - i,
    {
        match filters[i].validate_filtering(record) {
            Ok(()) => {},
            Err(e) => {
                return Err(e);
            },
        }
        i = i + 1;
    }
    Ok(())
}

/// A conjunction of two filters matches exactly the records both match, a
/// disjunction those that either matches, and the empty filter every record.
pub proof fn lemma_filter_algebra(
    conj: AnyWhereFilter,
    disj: AnyWhereFilter,
    f1: AnyWhereFilter,
    f2: AnyWhereFilter,
    r: Map<Seq<char>, Value>,
)
    requires
        conj matches AnyWhereFilter::And(a) && a.filters@.len() == 2 && *a.filters@[0] == f1
            && *a.filters@[1] == f2,
        disj matches AnyWhereFilter::Or(o) && o.filters@.len() == 2 && *o.filters@[0] == f1
            && *o.filters@[1] == f2,
    ensures
        filter_matches(conj, r) == (filter_matches(f1, r) && filter_matches(f2, r)),
        filter_matches(disj, r) == (filter_matches(f1, r) || filter_matches(f2, r)),
        filter_matches(AnyWhereFilter::NoOp(NoOpWhereFilter {  }), r),
{
    let a = conj->And_0;
    let o = disj->Or_0;
    if filter_matches(f1, r) && filter_matches(f2, r) {
        assert forall|i: int| 0 <= i < a.filters@.len() implies filter_matches(
            *#[trigger] a.filters@[i],
            r,
        ) by {
            if i == 0 {
                assert(*a.filters@[0] == f1);
            } else {
                assert(*a.filters@[1] == f2);
            }
        }
    }
    if filter_matches(conj, r) {
        assert(filter_matches(*a.filters@[0], r));
        assert(filter_matches(*a.filters@[1], r));
    }
    if filter_matches(f1, r) {
        assert(filter_matches(*o.filters@[0], r));
    }
    if filter_matches(f2, r) {
        assert(filter_matches(*o.filters@[1], r));
    }
    if filter_matches(disj, r) {
        let i = choose|i: int| 0 <= i < o.filters@.len() && filter_matches(*#[trigger] o.filters@[i], r);
        assert(i == 0 || i == 1);
    }
}

/// A comparison with a literal of the wrong type matches no record holding
/// the column, and validating it reports the mismatch: a WHERE clause must
/// be well typed even where it would match nothing.
pub proof fn lemma_type_mismatch_invalid(v: ValueOperatorFilter, r: Map<Seq<char>, Value>, e: CommandError)
    requires
        r.contains_key(v.column_name@),
        type_of(r[v.column_name@]) != type_of(v.value),
    ensures
        !filter_matches(AnyWhereFilter::ValueOperator(v), r),
        !filter_valid(AnyWhereFilter::ValueOperator(v), r),
        filter_error(AnyWhereFilter::ValueOperator(v), r, e) == (e matches CommandError::InvalidValueError { column_name, expected_type, got_type }
            && column_name@ == v.column_name@ && expected_type@ == type_name_of(type_of(r[v.column_name@]))
            && got_type@ == type_name_of(type_of(v.value))),
{
}

} // verus!
