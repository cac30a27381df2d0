use vstd::prelude::*;
use vstd::string::StringExecFns;
use vstd::string::StrSliceExecFns;
use core::cmp::Ordering;

verus! {

/// A scalar stored in a table cell.
///
/// A `FLOAT` holds the IEEE-754 bit pattern of a 64-bit float; it is ordered
/// and compared as the float it encodes.
#[allow(non_camel_case_types)]
#[derive(Clone, Debug, PartialEq)]
pub enum Value {
    BOOL(bool),
    STRING(String),
    INT(i64),
    FLOAT(u64),
}

/// The declared kind of a column.
#[allow(non_camel_case_types)]
#[derive(Clone, Copy, Debug, PartialEq, Eq, Structural)]
pub enum ColumnType {
    BOOL,
    STRING,
    INT,
    FLOAT,
}

/// The comparison operators of a WHERE clause.
#[derive(Clone, Copy, Debug, PartialEq, Eq, Structural)]
pub enum Operator {
    Greater,
    GreaterOrEqual,
    Equal,
    NotEqual,
    Less,
    LessOrEqual,
}

pub const SIGN_BIT: u64 = 0x8000_0000_0000_0000;

pub const INFINITY_BITS: u64 = 0x7ff0_0000_0000_0000;

/// The column type that a value belongs to.
pub open spec fn type_of(v: Value) -> ColumnType {
    match v {
        Value::BOOL(_) => ColumnType::BOOL,
        Value::STRING(_) => ColumnType::STRING,
        Value::INT(_) => ColumnType::INT,
        Value::FLOAT(_) => ColumnType::FLOAT,
    }
}

pub open spec fn type_name_of(t: ColumnType) -> Seq<char> {
    match t {
        ColumnType::BOOL => seq!['B', 'O', 'O', 'L'],
        ColumnType::STRING => seq!['S', 'T', 'R', 'I', 'N', 'G'],
        ColumnType::INT => seq!['I', 'N', 'T'],
        ColumnType::FLOAT => seq!['F', 'L', 'O', 'A', 'T'],
    }
}

/// A float's bit pattern encodes NaN: all exponent bits set and a nonzero fraction.
pub open spec fn float_is_nan(bits: u64) -> bool {
    bits % SIGN_BIT > INFINITY_BITS
}

/// The position of a non-NaN float on the number line, as an integer that
/// orders floats as their values are ordered (both zeros map to 0).
pub open spec fn float_rank(bits: u64) -> int {
    if bits >= SIGN_BIT {
        -((bits % SIGN_BIT) as int)
    } else {
        (bits % SIGN_BIT) as int
    }
}

pub open spec fn int_order(a: int, b: int) -> Ordering {
    if a < b {
        Ordering::Less
    } else if a == b {
        Ordering::Equal
    } else {
        Ordering::Greater
    }
}

/// Lexicographic order of two character sequences.
pub open spec fn seq_order(a: Seq<char>, b: Seq<char>) -> Ordering
    decreases a.len(),
{
    if a.len() == 0 {
        if b.len() == 0 {
            Ordering::Equal
        } else {
            Ordering::Less
        }
    } else if b.len() == 0 {
        Ordering::Greater
    } else if a[0] < b[0] {
        Ordering::Less
    } else if a[0] > b[0] {
        Ordering::Greater
    } else {
        seq_order(a.drop_first(), b.drop_first())
    }
}

/// How two values compare; `None` when they are of different types or when
/// either is a NaN float.
pub open spec fn value_order(a: Value, b: Value) -> Option<Ordering> {
    match (a, b) {
        (Value::BOOL(x), Value::BOOL(y)) => Some(
            int_order(if x { 1 } else { 0 }, if y { 1 } else { 0 }),
        ),
        (Value::STRING(x), Value::STRING(y)) => Some(seq_order(x@, y@)),
        (Value::INT(x), Value::INT(y)) => Some(int_order(x as int, y as int)),
        (Value::FLOAT(x), Value::FLOAT(y)) => if float_is_nan(x) || float_is_nan(y) {
            None
        } else {
            Some(int_order(float_rank(x), float_rank(y)))
        },
        _ => None,
    }
}

/// Whether `a op b` holds.
pub open spec fn operator_holds(op: Operator, a: Value, b: Value) -> bool {
    let o = value_order(a, b);
    match op {
        Operator::Greater => o == Some(Ordering::Greater),
        Operator::GreaterOrEqual => o == Some(Ordering::Greater) || o == Some(Ordering::Equal),
        Operator::Equal => o == Some(Ordering::Equal),
        Operator::NotEqual => o != Some(Ordering::Equal),
        Operator::Less => o == Some(Ordering::Less),
        Operator::LessOrEqual => o == Some(Ordering::Less) || o == Some(Ordering::Equal),
    }
}

/// The operator that a WHERE clause spells as `s`, if any.
pub open spec fn operator_of(s: Seq<char>) -> Option<Operator> {
    if s == seq!['>'] {
        Some(Operator::Greater)
    } else if s == seq!['>', '='] {
        Some(Operator::GreaterOrEqual)
    } else if s == seq!['='] {
        Some(Operator::Equal)
    } else if s == seq!['!', '='] {
        Some(Operator::NotEqual)
    } else if s == seq!['<'] {
        Some(Operator::Less)
    } else if s == seq!['<', '='] {
        Some(Operator::LessOrEqual)
    } else {
        None
    }
}

pub proof fn lemma_seq_order_equal(a: Seq<char>, b: Seq<char>)
    ensures
        (seq_order(a, b) == Ordering::Equal) == (a == b),
    decreases a.len(),
{
    if a.len() > 0 && b.len() > 0 {
        if a[0] == b[0] {
            lemma_seq_order_equal(a.drop_first(), b.drop_first());
            assert(a =~= seq![a[0]] + a.drop_first());
            assert(b =~= seq![b[0]] + b.drop_first());
        } else {
            assert(a[0] < b[0] || a[0] > b[0]);
            assert(a != b);
        }
    } else if a.len() > 0 || b.len() > 0 {
        assert(a.len() != b.len());
    } else {
        assert(a =~= b);
    }
}

pub proof fn lemma_seq_order_flip(a: Seq<char>, b: Seq<char>)
    ensures
        (seq_order(a, b) == Ordering::Less) == (seq_order(b, a) == Ordering::Greater),
    decreases a.len(),
{
    if a.len() > 0 && b.len() > 0 && a[0] == b[0] {
        lemma_seq_order_flip(a.drop_first(), b.drop_first());
    }
}

pub proof fn lemma_seq_order_transitive(a: Seq<char>, b: Seq<char>, c: Seq<char>)
    requires
        seq_order(a, b) == Ordering::Less,
        seq_order(b, c) == Ordering::Less,
    ensures
        seq_order(a, c) == Ordering::Less,
    decreases a.len(),
{
    if a.len() > 0 && b.len() > 0 && c.len() > 0 && a[0] == b[0] && b[0] == c[0] {
        lemma_seq_order_transitive(a.drop_first(), b.drop_first(), c.drop_first());
    }
}

/// The value is one that orders against itself: anything but a NaN float.
pub open spec fn is_ordered(v: Value) -> bool {
    !(v matches Value::FLOAT(b) && float_is_nan(b))
}

pub open spec fn value_less(a: Value, b: Value) -> bool {
    value_order(a, b) == Some(Ordering::Less)
}

pub open spec fn value_same(a: Value, b: Value) -> bool {
    value_order(a, b) == Some(Ordering::Equal)
}

/// Among ordered values of one type, `value_order` is a total order.
pub proof fn lemma_value_order_laws(a: Value, b: Value, c: Value)
    requires
        type_of(a) == type_of(b),
        type_of(b) == type_of(c),
        is_ordered(a),
        is_ordered(b),
        is_ordered(c),
    ensures
        value_less(a, b) || value_same(a, b) || value_less(b, a),
        !(value_less(a, b) && value_same(a, b)),
        !(value_less(a, b) && value_less(b, a)),
        value_same(a, b) == value_same(b, a),
        value_same(a, a),
        value_less(a, b) && value_less(b, c) ==> value_less(a, c),
        value_same(a, b) && value_less(b, c) ==> value_less(a, c),
        value_less(a, b) && value_same(b, c) ==> value_less(a, c),
{
    match (a, b, c) {
        (Value::STRING(x), Value::STRING(y), Value::STRING(z)) => {
            lemma_seq_order_equal(x@, y@);
            lemma_seq_order_equal(y@, x@);
            lemma_seq_order_equal(x@, x@);
            lemma_seq_order_equal(y@, z@);
            lemma_seq_order_flip(x@, y@);
            lemma_seq_order_flip(y@, x@);
            if seq_order(x@, y@) == Ordering::Less && seq_order(y@, z@) == Ordering::Less {
                lemma_seq_order_transitive(x@, y@, z@);
            }
        },
        _ => {},
    }
}

impl Value {
    /// A copy of the value.
    pub fn copy_value(&self) -> (r: Value)
        ensures
            r == *self,
    {
        match self {
            Value::BOOL(b) => Value::BOOL(*b),
            Value::STRING(s) => Value::STRING(s.clone()),
            Value::INT(i) => Value::INT(*i),
            Value::FLOAT(f) => Value::FLOAT(*f),
        }
    }

    pub fn is_the_same_type_as(&self, other: &Self) -> (r: bool)
        ensures
            r == (type_of(*self) == type_of(*other)),
    {
        match (self, other) {
            (Value::BOOL(_), Value::BOOL(_)) => true,
            (Value::STRING(_), Value::STRING(_)) => true,
            (Value::INT(_), Value::INT(_)) => true,
            (Value::FLOAT(_), Value::FLOAT(_)) => true,
            _ => false,
        }
    }

    pub fn type_keyword(&self) -> (r: String)
        ensures
            r@ == type_name_of(type_of(*self)),
    {
        ColumnType::from_value(self).name()
    }

    /// Compares two values as `value_order` does.
    pub fn compare(&self, other: &Self) -> (r: Option<Ordering>)
        ensures
            r == value_order(*self, *other),
    {
        match (self, other) {
            (Value::BOOL(x), Value::BOOL(y)) => {
                let a: u8 = if *x { 1 } else { 0 };
                let b: u8 = if *y { 1 } else { 0 };
                Some(compare_ints(a as i128, b as i128))
            },
            (Value::STRING(x), Value::STRING(y)) => Some(compare_strings(x.as_str(), y.as_str())),
            (Value::INT(x), Value::INT(y)) => Some(compare_ints(*x as i128, *y as i128)),
            (Value::FLOAT(x), Value::FLOAT(y)) => {
                if *x % SIGN_BIT > INFINITY_BITS || *y % SIGN_BIT > INFINITY_BITS {
                    None
                } else {
                    Some(compare_ints(float_rank_exec(*x), float_rank_exec(*y)))
                }
            },
            _ => None,
        }
    }
}

fn float_rank_exec(bits: u64) -> (r: i128)
    ensures
        r as int == float_rank(bits),
{
    let magnitude = (bits % SIGN_BIT) as i128;
    if bits >= SIGN_BIT {
        -magnitude
    } else {
        magnitude
    }
}

fn compare_ints(a: i128, b: i128) -> (r: Ordering)
    ensures
        r == int_order(a as int, b as int),
{
    if a < b {
        Ordering::Less
    } else if a == b {
        Ordering::Equal
    } else {
        Ordering::Greater
    }
}

/// Lexicographic comparison of two strings, character by character.
pub fn compare_strings(a: &str, b: &str) -> (r: Ordering)
    ensures
        r == seq_order(a@, b@),
{
    let la = a.unicode_len();
    let lb = b.unicode_len();
    let mut i: usize = 0;
    assert(a@.skip(0) =~= a@);
    assert(b@.skip(0) =~= b@);
    while i < la && i < lb
        invariant
            la == a@.len(),
            lb == b@.len(),
            i <= la,
            i <= lb,
            seq_order(a@, b@) == seq_order(a@.skip(i as int), b@.skip(i as int)),
        decreases la - i,
    {
        let ca = a.get_char(i);
        let cb = b.get_char(i);
        if ca < cb {
            return Ordering::Less;
        }
        if ca > cb {
            return Ordering::Greater;
        }
        assert(a@.skip(i as int).drop_first() =~= a@.skip(i + 1));
        assert(b@.skip(i as int).drop_first() =~= b@.skip(i + 1));
        i = i + 1;
    }
    if la == lb {
        Ordering::Equal
    } else if i == la {
        Ordering::Less
    } else {
        Ordering::Greater
    }
}

/// Whether two strings hold the same characters.
pub fn same_text(a: &str, b: &str) -> (r: bool)
    ensures
        r == (a@ == b@),
{
    let o = compare_strings(a, b);
    proof {
        lemma_seq_order_equal(a@, b@);
    }
    matches!(o, Ordering::Equal)
}

/// Reads an operator spelled as in a WHERE clause.
pub fn parse_operator(s: &str) -> (r: Option<Operator>)
    ensures
        r == operator_of(s@),
{
    let n = s.unicode_len();
    if n == 1 {
        let c = s.get_char(0);
        if c == '>' {
            assert(s@ =~= seq!['>']);
            Some(Operator::Greater)
        } else if c == '=' {
            assert(s@ =~= seq!['=']);
            Some(Operator::Equal)
        } else if c == '<' {
            assert(s@ =~= seq!['<']);
            Some(Operator::Less)
        } else {
            None
        }
    } else if n == 2 {
        let c0 = s.get_char(0);
        let c1 = s.get_char(1);
        if c1 != '=' {
            None
        } else if c0 == '>' {
            assert(s@ =~= seq!['>', '=']);
            Some(Operator::GreaterOrEqual)
        } else if c0 == '!' {
            assert(s@ =~= seq!['!', '=']);
            Some(Operator::NotEqual)
        } else if c0 == '<' {
            assert(s@ =~= seq!['<', '=']);
            Some(Operator::LessOrEqual)
        } else {
            None
        }
    } else {
        None
    }
}

/// Evaluates `a op b`.
pub fn apply_operator(op: Operator, a: &Value, b: &Value) -> (r: bool)
    ensures
        r == operator_holds(op, *a, *b),
{
    let o = a.compare(b);
    match op {
        Operator::Greater => matches!(o, Some(Ordering::Greater)),
        Operator::GreaterOrEqual => matches!(o, Some(Ordering::Greater) | Some(Ordering::Equal)),
        Operator::Equal => matches!(o, Some(Ordering::Equal)),
        Operator::NotEqual => !matches!(o, Some(Ordering::Equal)),
        Operator::Less => matches!(o, Some(Ordering::Less)),
        Operator::LessOrEqual => matches!(o, Some(Ordering::Less) | Some(Ordering::Equal)),
    }
}

impl ColumnType {
    pub fn is_type_of(&self, other: &Value) -> (r: bool)
        ensures
            r == (type_of(*other) == *self),
    {
        match (self, other) {
            (ColumnType::BOOL, Value::BOOL(_)) => true,
            (ColumnType::STRING, Value::STRING(_)) => true,
            (ColumnType::INT, Value::INT(_)) => true,
            (ColumnType::FLOAT, Value::FLOAT(_)) => true,
            _ => false,
        }
    }

    pub fn from_value(value: &Value) -> (r: ColumnType)
        ensures
            r == type_of(*value),
    {
        match value {
            Value::BOOL(_) => ColumnType::BOOL,
            Value::STRING(_) => ColumnType::STRING,
            Value::INT(_) => ColumnType::INT,
            Value::FLOAT(_) => ColumnType::FLOAT,
        }
    }

    /// The keyword that names the type.
    pub fn name(&self) -> (r: String)
        ensures
            r@ == type_name_of(*self),
    {
        match self {
            ColumnType::BOOL => {
                proof {
                    reveal_strlit("BOOL");
                }
                String::from_str("BOOL")
            },
            ColumnType::STRING => {
                proof {
                    reveal_strlit("STRING");
                }
                String::from_str("STRING")
            },
            ColumnType::INT => {
                proof {
                    reveal_strlit("INT");
                }
                String::from_str("INT")
            },
            ColumnType::FLOAT => {
                proof {
                    reveal_strlit("FLOAT");
                }
                String::from_str("FLOAT")
            },
        }
    }
}

} // verus!
