use vstd::prelude::*;
use vstd::string::StringExecFns;

verus! {

#[derive(Copy, Clone, Debug, PartialEq, Eq, Structural)]
pub enum Var {
    X,
    Y,
    Z,
}

#[derive(Clone, Debug)]
pub enum Const {
    Numeric(i64),
    Named(String),
}

/// An arithmetic expression over the variables X, Y and Z.
#[derive(Debug)]
pub enum E {
    Add(Box<E>, Box<E>),
    Neg(Box<E>),
    Mul(Box<E>, Box<E>),
    Inv(Box<E>),
    Const(Const),
    Func { name: String, arg: Box<E> },
    Var(Var),
}

pub open spec fn var_text(v: Var) -> Seq<char> {
    match v {
        Var::X => seq!['X'],
        Var::Y => seq!['Y'],
        Var::Z => seq!['Z'],
    }
}

pub open spec fn digit_char(d: int) -> char {
    if d == 0 { '0' } else if d == 1 { '1' } else if d == 2 { '2' } else if d == 3 { '3' }
    else if d == 4 { '4' } else if d == 5 { '5' } else if d == 6 { '6' } else if d == 7 { '7' }
    else if d == 8 { '8' } else { '9' }
}

/// The decimal digits of a natural number.
pub open spec fn digits(n: nat) -> Seq<char>
    decreases n,
{
    if n < 10 {
        seq![digit_char(n as int)]
    } else {
        digits(n / 10).push(digit_char((n % 10) as int))
    }
}

/// A number written in decimal, with a minus sign when negative.
pub open spec fn decimal(n: int) -> Seq<char> {
    if n < 0 {
        seq!['-'] + digits((-n) as nat)
    } else {
        digits(n as nat)
    }
}

pub open spec fn const_text(c: Const) -> Seq<char> {
    match c {
        Const::Numeric(n) => decimal(n as int),
        Const::Named(s) => s@,
    }
}

/// How an expression is written.
pub open spec fn show(e: E) -> Seq<char>
    decreases e,
{
    match e {
        E::Add(a, b) => seq!['('] + show(*a) + seq![' ', '+', ' '] + show(*b) + seq![')'],
        E::Neg(a) => seq!['-', '('] + show(*a) + seq![')'],
        E::Mul(a, b) => seq!['('] + show(*a) + seq![' ', '*', ' '] + show(*b) + seq![')'],
        E::Inv(a) => seq!['1', '/', '('] + show(*a) + seq![')'],
        E::Const(c) => const_text(c),
        E::Func { name, arg } => name@ + seq!['('] + show(*arg) + seq![')'],
        E::Var(v) => var_text(v),
    }
}

/// `d` is the derivative of `e` by `by`, built by the rules of sums,
/// products, inverses and the chain rule.
pub open spec fn is_diff(e: E, by: Var, d: E) -> bool
    decreases e,
{
    match e {
        E::Add(a, b) => d matches E::Add(da, db) && is_diff(*a, by, *da) && is_diff(*b, by, *db),
        E::Neg(a) => d matches E::Neg(da) && is_diff(*a, by, *da),
        E::Mul(a, b) => d matches E::Add(l, r) && (*l matches E::Mul(da, b2) && is_diff(*a, by, *da)
            && *b2 == *b) && (*r matches E::Mul(a2, db) && *a2 == *a && is_diff(*b, by, *db)),
        E::Inv(a) => d matches E::Mul(l, da) && *l == E::Neg(
            Box::new(E::Inv(Box::new(E::Mul(a, a)))),
        ) && is_diff(*a, by, *da),
        E::Const(_) => d == E::Const(Const::Numeric(0)),
        E::Func { name, arg } => d matches E::Mul(f, da) && (*f matches E::Func { name: n2, arg: a2 }
            && n2@ == name@ + seq!['_'] + var_text(by) && *a2 == *arg) && is_diff(*arg, by, *da),
        E::Var(v) => d == E::Const(Const::Numeric(if v == by { 1 } else { 0 })),
    }
}

/// `s` is `e` with every constant named `name` replaced by `value`.
pub open spec fn is_substitution(e: E, name: Seq<char>, value: E, s: E) -> bool
    decreases e,
{
    match e {
        E::Add(a, b) => s matches E::Add(sa, sb) && is_substitution(*a, name, value, *sa)
            && is_substitution(*b, name, value, *sb),
        E::Neg(a) => s matches E::Neg(sa) && is_substitution(*a, name, value, *sa),
        E::Mul(a, b) => s matches E::Mul(sa, sb) && is_substitution(*a, name, value, *sa)
            && is_substitution(*b, name, value, *sb),
        E::Inv(a) => s matches E::Inv(sa) && is_substitution(*a, name, value, *sa),
        E::Const(Const::Named(n)) => if n@ == name {
            s == value
        } else {
            s == e
        },
        E::Const(_) => s == e,
        E::Func { name: n, arg } => s matches E::Func { name: n2, arg: sa } && n2 == n
            && is_substitution(*arg, name, value, *sa),
        E::Var(_) => s == e,
    }
}

/// `e` with all of its leading pairs of `Inv` removed.
pub open spec fn strip_inv(e: E) -> E
    decreases e,
{
    match e {
        E::Inv(a) => match *a {
            E::Inv(b) => strip_inv(*b),
            _ => e,
        },
        _ => e,
    }
}

/// `e` with all of its leading pairs of `Neg` removed.
pub open spec fn strip_neg(e: E) -> E
    decreases e,
{
    match e {
        E::Neg(a) => match *a {
            E::Neg(b) => strip_neg(*b),
            _ => e,
        },
        _ => e,
    }
}

/// Relies on `String::push`: appends one character.
#[verifier::external_body]
pub(crate) fn push_char(s: &mut String, c: char)
    ensures
        final(s)@ == old(s)@.push(c),
{
    s.push(c);
}

fn append_digits(s: &mut String, n: u64)
    ensures
        final(s)@ == old(s)@ + digits(n as nat),
    decreases n,
{
    if n >= 10 {
        append_digits(s, n / 10);
    }
    let d = n % 10;
    let c = if d == 0 { '0' } else if d == 1 { '1' } else if d == 2 { '2' } else if d == 3 { '3' }
    else if d == 4 { '4' } else if d == 5 { '5' } else if d == 6 { '6' } else if d == 7 { '7' }
    else if d == 8 { '8' } else { '9' };
    push_char(s, c);
    proof {
        if n >= 10 {
            assert(old(s)@ + digits(n as nat) =~= old(s)@ + digits((n / 10) as nat) + seq![c]);
        } else {
            assert(old(s)@ + digits(n as nat) =~= old(s)@ + seq![c]);
        }
    }
}

fn append_str(s: &mut String, t: &str)
    ensures
        final(s)@ == old(s)@ + t@,
{
    s.append(t);
}

impl Var {
    pub fn to_string(&self) -> (r: String)
        ensures
            r@ == var_text(*self),
    {
        match self {
            Var::X => {
                proof {
                    reveal_strlit("X");
                }
                String::from_str("X")
            },
            Var::Y => {
                proof {
                    reveal_strlit("Y");
                }
                String::from_str("Y")
            },
            Var::Z => {
                proof {
                    reveal_strlit("Z");
                }
                String::from_str("Z")
            },
        }
    }
}

impl Const {
    pub fn to_string(&self) -> (r: String)
        ensures
            r@ == const_text(*self),
    {
        match self {
            Const::Numeric(num) => {
                let mut s = String::new();
                if *num < 0 {
                    push_char(&mut s, '-');
                    let m: u64 = if *num == i64::MIN {
                        9223372036854775808u64
                    } else {
                        (-*num) as u64
                    };
                    append_digits(&mut s, m);
                    assert(s@ =~= seq!['-'] + digits((-(*num as int)) as nat));
                } else {
                    append_digits(&mut s, *num as u64);
                    assert(s@ =~= digits(*num as nat));
                }
                s
            },
            Const::Named(name) => name.clone(),
        }
    }

    pub fn copy(&self) -> (r: Const)
        ensures
            r == *self,
    {
        match self {
            Const::Numeric(n) => Const::Numeric(*n),
            Const::Named(s) => Const::Named(s.clone()),
        }
    }
}

impl E {
    pub fn add(e1: Box<Self>, e2: Box<Self>) -> (r: Box<Self>)
        ensures
            *r == E::Add(e1, e2),
    {
        Box::new(E::Add(e1, e2))
    }

    pub fn neg(e: Box<Self>) -> (r: Box<Self>)
        ensures
            *r == E::Neg(e),
    {
        Box::new(E::Neg(e))
    }

    pub fn mul(e1: Box<Self>, e2: Box<Self>) -> (r: Box<Self>)
        ensures
            *r == E::Mul(e1, e2),
    {
        Box::new(E::Mul(e1, e2))
    }

    pub fn inv(e: Box<Self>) -> (r: Box<Self>)
        ensures
            *r == E::Inv(e),
    {
        Box::new(E::Inv(e))
    }

    pub fn constant(e: Const) -> (r: Box<Self>)
        ensures
            *r == E::Const(e),
    {
        Box::new(E::Const(e))
    }

    pub fn func(name: String, arg: Box<Self>) -> (r: Box<Self>)
        ensures
            *r == (E::Func { name, arg }),
    {
        Box::new(E::Func { name, arg })
    }

    pub fn var(var: Var) -> (r: Box<Self>)
        ensures
            *r == E::Var(var),
    {
        Box::new(E::Var(var))
    }

    /// A copy of the expression.
    pub fn copy(&self) -> (r: Box<E>)
        ensures
            *r == *self,
        decreases self,
    {
        match self {
            E::Add(a, b) => E::add(a.copy(), b.copy()),
            E::Neg(a) => E::neg(a.copy()),
            E::Mul(a, b) => E::mul(a.copy(), b.copy()),
            E::Inv(a) => E::inv(a.copy()),
            E::Const(c) => E::constant(c.copy()),
            E::Func { name, arg } => E::func(name.clone(), arg.copy()),
            E::Var(v) => E::var(*v),
        }
    }

    fn write_to(&self, s: &mut String)
        ensures
            final(s)@ == old(s)@ + show(*self),
        decreases self,
    {
        proof {
            reveal_strlit("(");
            reveal_strlit(")");
            reveal_strlit(" + ");
            reveal_strlit(" * ");
            reveal_strlit("-(");
            reveal_strlit("1/(");
        }
        let ghost start = s@;
        match self {
            E::Add(a, b) => {
                append_str(s, "(");
                a.write_to(s);
                append_str(s, " + ");
                b.write_to(s);
                append_str(s, ")");
            },
            E::Neg(a) => {
                append_str(s, "-(");
                a.write_to(s);
                append_str(s, ")");
            },
            E::Mul(a, b) => {
                append_str(s, "(");
                a.write_to(s);
                append_str(s, " * ");
                b.write_to(s);
                append_str(s, ")");
            },
            E::Inv(a) => {
                append_str(s, "1/(");
                a.write_to(s);
                append_str(s, ")");
            },
            E::Const(c) => {
                let t = c.to_string();
                append_str(s, t.as_str());
            },
            E::Func { name, arg } => {
                append_str(s, name.as_str());
                append_str(s, "(");
                arg.write_to(s);
                append_str(s, ")");
            },
            E::Var(v) => {
                let t = v.to_string();
                append_str(s, t.as_str());
            },
        }
        assert(s@ =~= start + show(*self));
    }

    pub fn to_string(&self) -> (r: String)
        ensures
            r@ == show(*self),
    {
        let mut s = String::new();
        self.write_to(&mut s);
        assert(s@ =~= show(*self));
        s
    }

    pub fn arg_count(&self) -> (r: u32)
        ensures
            r == match *self {
                E::Add(..) | E::Mul(..) => 2u32,
                E::Neg(_) | E::Inv(_) | E::Func { .. } => 1u32,
                _ => 0u32,
            },
    {
        match self {
            E::Add(..) | E::Mul(..) => 2,
            E::Neg(_) | E::Inv(_) | E::Func { .. } => 1,
            _ => 0,
        }
    }

    /// The derivative by `by`.
    pub fn diff(self, by: Var) -> (r: Box<Self>)
        ensures
            is_diff(self, by, *r),
        decreases self,
    {
        match self {
            E::Add(e, e1) => E::add(e.diff(by), e1.diff(by)),
            E::Neg(e) => E::neg(e.diff(by)),
            E::Mul(e, e1) => {
                let left = E::mul(e.copy().diff(by), e1.copy());
                E::add(left, E::mul(e, e1.diff(by)))
            },
            E::Inv(e) => E::mul(E::neg(E::inv(E::mul(e.copy(), e.copy()))), e.diff(by)),
            E::Const(_) => E::constant(Const::Numeric(0)),
            E::Func { name, arg } => {
                let ghost name_view = name@;
                let mut fname = name;
                push_char(&mut fname, '_');
                let vt = by.to_string();
                append_str(&mut fname, vt.as_str());
                assert(fname@ =~= name_view + seq!['_'] + var_text(by));
                let f = E::func(fname, arg.copy());
                E::mul(f, arg.diff(by))
            },
            E::Var(var) => {
                if var == by {
                    return E::constant(Const::Numeric(1));
                }
                E::constant(Const::Numeric(0))
            },
        }
    }

    /// The inside of a double inverse.
    pub fn unpack_inv_inv(self) -> (r: Option<Box<Self>>)
        ensures
            match self {
                E::Inv(a) => match *a {
                    E::Inv(b) => r == Some(b),
                    _ => r is None,
                },
                _ => r is None,
            },
    {
        let E::Inv(inner) = self else {
            return None;
        };
        let E::Inv(inner2) = *inner else {
            return None;
        };
        Some(inner2)
    }

    /// Removes every leading pair of inverses.
    pub fn uninv(self: Box<Self>) -> (r: Box<Self>)
        ensures
            *r == strip_inv(*self),
    {
        let mut ret = self;
        loop
            invariant
                strip_inv(*ret) == strip_inv(*self),
            decreases *ret,
        {
            match ret.copy().unpack_inv_inv() {
                Some(a) => {
                    ret = a;
                },
                None => {
                    return ret;
                },
            }
        }
    }

    /// The inside of a double negation.
    pub fn unpack_neg_neg(self) -> (r: Option<Box<Self>>)
        ensures
            match self {
                E::Neg(a) => match *a {
                    E::Neg(b) => r == Some(b),
                    _ => r is None,
                },
                _ => r is None,
            },
    {
        if let E::Neg(outer) = self {
            if let E::Neg(inner) = *outer {
                return Some(inner);
            }
        }
        None
    }

    /// Removes every leading pair of negations.
    pub fn unneg(self: Box<Self>) -> (r: Box<Self>)
        ensures
            *r == strip_neg(*self),
    {
        let mut ret = self;
        loop
            invariant
                strip_neg(*ret) == strip_neg(*self),
            decreases *ret,
        {
            match ret.copy().unpack_neg_neg() {
                Some(a) => {
                    ret = a;
                },
                None => {
                    return ret;
                },
            }
        }
    }

    /// Replaces every constant named `name` by `value`.
    pub fn substitute(self, name: &str, value: Box<Self>) -> (r: Box<Self>)
        ensures
            is_substitution(self, name@, *value, *r),
        decreases self,
    {
        match self {
            E::Add(e, e1) => E::add(e.substitute(name, value.copy()), e1.substitute(name, value)),
            E::Neg(e) => E::neg(e.substitute(name, value)),
            E::Mul(e, e1) => E::mul(e.substitute(name, value.copy()), e1.substitute(name, value)),
            E::Inv(e) => E::inv(e.substitute(name, value)),
            E::Const(Const::Named(n)) => {
                if crate::value::same_text(n.as_str(), name) {
                    value
                } else {
                    Box::new(E::Const(Const::Named(n)))
                }
            },
            E::Const(c) => Box::new(E::Const(c)),
            E::Func { name: n, arg: a } => E::func(n, a.substitute(name, value)),
            E::Var(v) => Box::new(E::Var(v)),
        }
    }
}

} // verus!
