use vstd::prelude::*;
use crate::value::{ColumnType, Value, type_of, is_ordered, value_less, value_same, lemma_value_order_laws, same_text, compare_strings, lemma_seq_order_equal};
use core::cmp::Ordering;

verus! {

/// The domain of a table's primary key.
///
/// A key stands for a `Value` of the key's column type; keys are ordered
/// and told apart as those values are.
pub trait DatabaseKey: Sized {
    /// The value that the key stands for.
    spec fn key_value(&self) -> Value;

    /// The column type of every key.
    spec fn key_type() -> ColumnType;

    proof fn lemma_key_value(k: &Self)
        ensures
            type_of(k.key_value()) == Self::key_type(),
            is_ordered(k.key_value()),
    ;

    fn is_equal_to(&self, other: &Self) -> (r: bool)
        ensures
            r == value_same(self.key_value(), other.key_value()),
    ;

    fn is_less_than(&self, other: &Self) -> (r: bool)
        ensures
            r == value_less(self.key_value(), other.key_value()),
    ;

    fn to_value(self) -> (r: Value)
        ensures
            r == self.key_value(),
    ;

    fn to_column_type() -> (r: ColumnType)
        ensures
            r == Self::key_type(),
    ;

    fn from_value(value: Value) -> (r: Option<Self>)
        ensures
            r is Some == (type_of(value) == Self::key_type() && is_ordered(value)),
            r matches Some(k) ==> k.key_value() == value,
    ;
}

/// Laws of the key order that tables rely on.
pub proof fn lemma_key_order<K: DatabaseKey>(a: &K, b: &K, c: &K)
    ensures
        value_less(a.key_value(), b.key_value()) || value_same(a.key_value(), b.key_value())
            || value_less(b.key_value(), a.key_value()),
        !(value_less(a.key_value(), b.key_value()) && value_same(a.key_value(), b.key_value())),
        !(value_less(a.key_value(), b.key_value()) && value_less(b.key_value(), a.key_value())),
        value_same(a.key_value(), b.key_value()) == value_same(b.key_value(), a.key_value()),
        value_less(a.key_value(), b.key_value()) && value_less(b.key_value(), c.key_value())
            ==> value_less(a.key_value(), c.key_value()),
{
    K::lemma_key_value(a);
    K::lemma_key_value(b);
    K::lemma_key_value(c);
    lemma_value_order_laws(a.key_value(), b.key_value(), c.key_value());
}

impl DatabaseKey for i64 {
    open spec fn key_value(&self) -> Value {
        Value::INT(*self)
    }

    open spec fn key_type() -> ColumnType {
        ColumnType::INT
    }

    proof fn lemma_key_value(k: &Self) {
    }

    fn is_equal_to(&self, other: &Self) -> (r: bool) {
        *self == *other
    }

    fn is_less_than(&self, other: &Self) -> (r: bool) {
        *self < *other
    }

    fn to_value(self) -> (r: Value) {
        Value::INT(self)
    }

    fn to_column_type() -> (r: ColumnType) {
        ColumnType::INT
    }

    fn from_value(value: Value) -> (r: Option<Self>) {
        match value {
            Value::INT(i) => Some(i),
            _ => None,
        }
    }
}

impl DatabaseKey for String {
    open spec fn key_value(&self) -> Value {
        Value::STRING(*self)
    }

    open spec fn key_type() -> ColumnType {
        ColumnType::STRING
    }

    proof fn lemma_key_value(k: &Self) {
    }

    fn is_equal_to(&self, other: &Self) -> (r: bool) {
        proof {
            lemma_seq_order_equal(self@, other@);
        }
        same_text(self.as_str(), other.as_str())
    }

    fn is_less_than(&self, other: &Self) -> (r: bool) {
        matches!(compare_strings(self.as_str(), other.as_str()), Ordering::Less)
    }

    fn to_value(self) -> (r: Value) {
        Value::STRING(self)
    }

    fn to_column_type() -> (r: ColumnType) {
        ColumnType::STRING
    }

    fn from_value(value: Value) -> (r: Option<Self>) {
        match value {
            Value::STRING(s) => Some(s),
            _ => None,
        }
    }
}

} // verus!
