use vstd::prelude::*;
use itertools::Itertools;

verus! {

/// The list is strictly increasing.
pub open spec fn strictly_sorted(s: Seq<u32>) -> bool {
    forall|i: int, j: int| 0 <= i < j < s.len() ==> s[i] < s[j]
}

/// Relies on itertools' `unique` (keeps the first of equal items) and
/// `sorted` (sorts ascending): the result holds each distinct item once,
/// in increasing order.
#[verifier::external_body]
fn sorted_unique(v: Vec<u32>) -> (r: Vec<u32>)
    ensures
        strictly_sorted(r@),
        r@.to_set() == v@.to_set(),
{
    v.into_iter().unique().sorted().collect()
}

/// Calls `f2` on the results of `f1` at 1 and at 2.
pub fn wrap_call<F1: Fn(u32) -> u32, F2: FnOnce(u32, u32) -> u32>(f1: F1, f2: F2) -> (r: u32)
    requires
        f1.requires((1u32,)),
        f1.requires((2u32,)),
        forall|a: u32, b: u32| f2.requires((a, b)),
    ensures
        exists|a: u32, b: u32|
            f1.ensures((1u32,), a) && f1.ensures((2u32,), b) && f2.ensures((a, b), r),
{
    let f1_rename = f1;
    let a = f1_rename(1);
    let b = f1_rename(2);
    f2(a, b)
}

/// The sum of the squares of the odd items.
pub open spec fn sum_squares_odd_spec(s: Seq<u32>) -> int
    decreases s.len(),
{
    if s.len() == 0 {
        0
    } else {
        sum_squares_odd_spec(s.drop_last()) + if s.last() % 2 == 1 {
            s.last() * s.last()
        } else {
            0
        }
    }
}

proof fn lemma_sum_squares_prefix(s: Seq<u32>, i: int)
    requires
        0 <= i <= s.len(),
    ensures
        0 <= sum_squares_odd_spec(s.take(i)) <= sum_squares_odd_spec(s),
    decreases s.len() - i,
{
    if i < s.len() {
        lemma_sum_squares_prefix(s, i + 1);
        assert(s.take(i + 1).drop_last() =~= s.take(i));
        assert(s[i] * s[i] >= 0) by (nonlinear_arith);
    } else {
        assert(s.take(i) =~= s);
    }
    lemma_sum_squares_nonneg(s.take(i));
}

proof fn lemma_sum_squares_nonneg(s: Seq<u32>)
    ensures
        sum_squares_odd_spec(s) >= 0,
    decreases s.len(),
{
    if s.len() > 0 {
        lemma_sum_squares_nonneg(s.drop_last());
        assert(s.last() * s.last() >= 0) by (nonlinear_arith);
    }
}

pub fn sum_squares_odd_loop(list: &[u32]) -> (r: u32)
    requires
        sum_squares_odd_spec(list@) <= u32::MAX,
    ensures
        r == sum_squares_odd_spec(list@),
{
    let mut sum: u32 = 0;
    let mut i: usize = 0;
    while i < list.len()
        invariant
            i <= list@.len(),
            sum == sum_squares_odd_spec(list@.take(i as int)),
            sum_squares_odd_spec(list@) <= u32::MAX,
        decreases list@.len() - i,
    {
        proof {
            assert(list@.take(i + 1).drop_last() =~= list@.take(i as int));
            lemma_sum_squares_prefix(list@, i + 1);
        }
        let el = list[i];
        if el % 2 == 1 {
            sum = sum + el * el;
        }
        i = i + 1;
    }
    proof {
        assert(list@.take(list@.len() as int) =~= list@);
    }
    sum
}

pub fn sum_squares_odd(list: &[u32]) -> (r: u32)
    requires
        sum_squares_odd_spec(list@) <= u32::MAX,
    ensures
        r == sum_squares_odd_spec(list@),
{
    sum_squares_odd_loop(list)
}

/// Every endpoint of the edges.
pub open spec fn endpoints(edges: Seq<(u32, u32)>) -> Set<u32> {
    Set::new(|x: u32| exists|i: int| 0 <= i < edges.len() && (edges[i].0 == x || edges[i].1 == x))
}

/// Puts `x` into a strictly increasing list, unless it is there already.
fn insert_sorted(v: &mut Vec<u32>, x: u32)
    requires
        strictly_sorted(old(v)@),
    ensures
        strictly_sorted(final(v)@),
        final(v)@.to_set() == old(v)@.to_set().insert(x),
{
    let mut p: usize = 0;
    while p < v.len() && v[p] < x
        invariant
            p <= v@.len(),
            forall|j: int| 0 <= j < p ==> v@[j] < x,
        decreases v@.len() - p,
    {
        p = p + 1;
    }
    if p < v.len() && v[p] == x {
        proof {
            assert(v@.to_set().insert(x) =~= v@.to_set());
        }
        return;
    }
    let ghost before = v@;
    v.insert(p, x);
    proof {
        assert(v@ =~= before.insert(p as int, x));
        assert forall|y: u32| v@.to_set().contains(y) == before.to_set().insert(x).contains(y) by {
            if before.to_set().contains(y) && y != x {
                let k = choose|k: int| 0 <= k < before.len() && before[k] == y;
                if k < p {
                    assert(v@[k] == y);
                } else {
                    assert(v@[k + 1] == y);
                }
            }
            if y == x {
                assert(v@[p as int] == x);
            }
            if v@.to_set().contains(y) {
                let k = choose|k: int| 0 <= k < v@.len() && v@[k] == y;
                if k < p {
                    assert(before[k] == y);
                } else if k > p {
                    assert(before[k - 1] == y);
                }
            }
        }
        assert(v@.to_set() =~= before.to_set().insert(x));
    }
}

/// The vertices of a graph given by its edges, sorted, each once.
pub fn vertices_loop(edges: &[(u32, u32)]) -> (r: Vec<u32>)
    ensures
        strictly_sorted(r@),
        r@.to_set() == endpoints(edges@),
{
    let mut result: Vec<u32> = Vec::new();
    let mut i: usize = 0;
    while i < edges.len()
        invariant
            i <= edges@.len(),
            strictly_sorted(result@),
            result@.to_set() == endpoints(edges@.take(i as int)),
        decreases edges@.len() - i,
    {
        let edge = edges[i];
        insert_sorted(&mut result, edge.0);
        insert_sorted(&mut result, edge.1);
        proof {
            lemma_endpoints_step(edges@, i as int);
        }
        i = i + 1;
    }
    proof {
        assert(edges@.take(edges@.len() as int) =~= edges@);
    }
    result
}

proof fn lemma_endpoints_step(edges: Seq<(u32, u32)>, i: int)
    requires
        0 <= i < edges.len(),
    ensures
        endpoints(edges.take(i + 1)) == endpoints(edges.take(i)).insert(edges[i].0).insert(
            edges[i].1,
        ),
{
    let a = edges.take(i + 1);
    let b = edges.take(i);
    assert forall|x: u32| endpoints(a).contains(x) == endpoints(b).insert(edges[i].0).insert(
        edges[i].1,
    ).contains(x) by {
        if endpoints(b).contains(x) {
            let k = choose|k: int| 0 <= k < b.len() && (b[k].0 == x || b[k].1 == x);
            assert(a[k] == b[k]);
        }
        if x == edges[i].0 || x == edges[i].1 {
            assert(a[i] == edges[i]);
        }
        if endpoints(a).contains(x) {
            let k = choose|k: int| 0 <= k < a.len() && (a[k].0 == x || a[k].1 == x);
            if k < i {
                assert(b[k] == a[k]);
            }
        }
    }
    assert(endpoints(a) =~= endpoints(b).insert(edges[i].0).insert(edges[i].1));
}

pub fn vertices(edges: &[(u32, u32)]) -> (r: Vec<u32>)
    ensures
        strictly_sorted(r@),
        r@.to_set() == endpoints(edges@),
{
    let mut all: Vec<u32> = Vec::new();
    let mut i: usize = 0;
    while i < edges.len()
        invariant
            i <= edges@.len(),
            all@.to_set() == endpoints(edges@.take(i as int)),
        decreases edges@.len() - i,
    {
        let ghost before = all@;
        all.push(edges[i].0);
        all.push(edges[i].1);
        proof {
            lemma_endpoints_step(edges@, i as int);
            before.lemma_push_to_set_commute(edges@[i as int].0);
            before.push(edges@[i as int].0).lemma_push_to_set_commute(edges@[i as int].1);
        }
        i = i + 1;
    }
    proof {
        assert(edges@.take(edges@.len() as int) =~= edges@);
    }
    sorted_unique(all)
}

/// The vertices that lie on a cycle of length two: some edge u->v with
/// u != v whose reverse v->u is an edge too.
pub open spec fn two_cycle_vertices(edges: Seq<(u32, u32)>) -> Set<u32> {
    Set::new(
        |x: u32|
            exists|i: int, j: int|
                0 <= i < edges.len() && 0 <= j < edges.len() && edges[i].0 != edges[i].1
                    && edges[i].0 == edges[j].1 && edges[i].1 == edges[j].0 && (edges[i].0 == x
                    || edges[i].1 == x),
    )
}

/// The vertices reached by pairs (i, j) with i < `upto`.
spec fn two_cycle_prefix(edges: Seq<(u32, u32)>, upto: int, upto_j: int) -> Set<u32> {
    Set::new(
        |x: u32|
            exists|i: int, j: int|
                0 <= i < edges.len() && 0 <= j < edges.len() && (i < upto || (i == upto && j
                    < upto_j)) && edges[i].0 != edges[i].1 && edges[i].0 == edges[j].1
                    && edges[i].1 == edges[j].0 && (edges[i].0 == x || edges[i].1 == x),
    )
}

/// Gathers the vertices of two-cycles, checking every ordered pair of edges.
fn collect_two_cycles(edges: &[(u32, u32)], sorted: bool) -> (r: Vec<u32>)
    ensures
        sorted ==> strictly_sorted(r@),
        r@.to_set() == two_cycle_vertices(edges@),
{
    let n = edges.len();
    let mut result: Vec<u32> = Vec::new();
    let mut i: usize = 0;
    while i < n
        invariant
            n == edges@.len(),
            i <= n,
            sorted ==> strictly_sorted(result@),
            result@.to_set() == two_cycle_prefix(edges@, i as int, 0),
        decreases n - i,
    {
        let mut j: usize = 0;
        while j < n
            invariant
                n == edges@.len(),
                i < n,
                j <= n,
                sorted ==> strictly_sorted(result@),
                result@.to_set() == two_cycle_prefix(edges@, i as int, j as int),
            decreases n - j,
        {
            let a = edges[i];
            let b = edges[j];
            let ghost before = result@.to_set();
            if a.0 != a.1 && a.0 == b.1 && a.1 == b.0 {
                if sorted {
                    insert_sorted(&mut result, a.0);
                    insert_sorted(&mut result, a.1);
                } else {
                    let ghost s0 = result@;
                    result.push(a.0);
                    result.push(a.1);
                    proof {
                        s0.lemma_push_to_set_commute(a.0);
                        s0.push(a.0).lemma_push_to_set_commute(a.1);
                    }
                }
                proof {
                    assert(two_cycle_prefix(edges@, i as int, j + 1) =~= before.insert(a.0).insert(
                        a.1,
                    )) by {
                        assert forall|x: u32| #[trigger] two_cycle_prefix(edges@, i as int, j + 1).contains(x) implies before.insert(a.0).insert(a.1).contains(x) by {
                            let (p, q) = choose|p: int, q: int|
                                0 <= p < edges@.len() && 0 <= q < edges@.len() && (p < i || (p == i && q < j + 1))
                                    && edges@[p].0 != edges@[p].1 && edges@[p].0 == edges@[q].1
                                    && edges@[p].1 == edges@[q].0 && (edges@[p].0 == x || edges@[p].1 == x);
                            if !(p == i && q == j) {
                                assert(two_cycle_prefix(edges@, i as int, j as int).contains(x));
                            }
                        }
                        assert forall|x: u32| before.insert(a.0).insert(a.1).contains(x) implies #[trigger] two_cycle_prefix(edges@, i as int, j + 1).contains(x) by {
                            if x == a.0 || x == a.1 {
                                assert(edges@[i as int] == a && edges@[j as int] == b);
                            } else {
                                let (p, q) = choose|p: int, q: int|
                                    0 <= p < edges@.len() && 0 <= q < edges@.len() && (p < i || (p == i && q < j))
                                        && edges@[p].0 != edges@[p].1 && edges@[p].0 == edges@[q].1
                                        && edges@[p].1 == edges@[q].0 && (edges@[p].0 == x || edges@[p].1 == x);
                            }
                        }
                    }
                }
            } else {
                proof {
                    assert(two_cycle_prefix(edges@, i as int, j + 1) =~= before) by {
                        assert forall|x: u32| #[trigger] two_cycle_prefix(edges@, i as int, j + 1).contains(x) implies before.contains(x) by {
                            let (p, q) = choose|p: int, q: int|
                                0 <= p < edges@.len() && 0 <= q < edges@.len() && (p < i || (p == i && q < j + 1))
                                    && edges@[p].0 != edges@[p].1 && edges@[p].0 == edges@[q].1
                                    && edges@[p].1 == edges@[q].0 && (edges@[p].0 == x || edges@[p].1 == x);
                            if p == i && q == j {
                                assert(edges@[i as int] == a && edges@[j as int] == b);
                            }
                            assert(two_cycle_prefix(edges@, i as int, j as int).contains(x));
                        }
                    }
                }
            }
            j = j + 1;
        }
        proof {
            assert(two_cycle_prefix(edges@, i as int, n as int) =~= two_cycle_prefix(edges@, i + 1, 0));
        }
        i = i + 1;
    }
    proof {
        assert(two_cycle_prefix(edges@, n as int, 0) =~= two_cycle_vertices(edges@));
    }
    result
}

/// The vertices on some cycle of length two, sorted, each once.
pub fn cycles_2_loop(edges: &[(u32, u32)]) -> (r: Vec<u32>)
    ensures
        strictly_sorted(r@),
        r@.to_set() == two_cycle_vertices(edges@),
{
    collect_two_cycles(edges, true)
}

pub fn cycles_2(edges: &[(u32, u32)]) -> (r: Vec<u32>)
    ensures
        strictly_sorted(r@),
        r@.to_set() == two_cycle_vertices(edges@),
{
    sorted_unique(collect_two_cycles(edges, false))
}

pub open spec fn is_prime_spec(c: int) -> bool {
    c >= 2 && forall|d: int| 2 <= d < c ==> #[trigger] (c % d) != 0
}

fn is_prime(candidate: u32) -> (r: bool)
    ensures
        r == is_prime_spec(candidate as int),
{
    if candidate < 2 {
        return false;
    }
    let mut divisor: u32 = 2;
    while divisor < candidate
        invariant
            2 <= divisor <= candidate,
            forall|d: int| 2 <= d < divisor ==> #[trigger] (candidate as int % d) != 0,
        decreases candidate - divisor,
    {
        if candidate % divisor == 0 {
            return false;
        }
        divisor = divisor + 1;
    }
    true
}

/// The primes below `n`, in increasing order.
pub open spec fn primes_below(n: int) -> Seq<u32>
    decreases n,
{
    if n <= 2 {
        Seq::empty()
    } else if is_prime_spec(n - 1) {
        primes_below(n - 1).push((n - 1) as u32)
    } else {
        primes_below(n - 1)
    }
}

pub fn primes_loop(n: u32) -> (r: Vec<u32>)
    ensures
        r@ == primes_below(n as int),
{
    let mut result: Vec<u32> = Vec::new();
    let mut candidate: u32 = 2;
    if n <= 2 {
        return result;
    }
    while candidate < n
        invariant
            2 <= candidate <= n,
            result@ == primes_below(candidate as int),
        decreases n - candidate,
    {
        if is_prime(candidate) {
            result.push(candidate);
        }
        candidate = candidate + 1;
    }
    result
}

pub fn primes(n: u32) -> (r: Vec<u32>)
    ensures
        r@ == primes_below(n as int),
{
    primes_loop(n)
}

/// The list that a run-length encoding stands for.
pub open spec fn decode(runs: Seq<(u32, usize)>) -> Seq<u32>
    decreases runs.len(),
{
    if runs.len() == 0 {
        Seq::empty()
    } else {
        decode(runs.drop_last()) + Seq::new(runs.last().1 as nat, |k: int| runs.last().0)
    }
}

/// Every run is nonempty and neighbouring runs hold different items.
pub open spec fn runs_maximal(runs: Seq<(u32, usize)>) -> bool {
    &&& forall|i: int| 0 <= i < runs.len() ==> #[trigger] runs[i].1 > 0
    &&& forall|i: int| 0 < i < runs.len() ==> #[trigger] runs[i].0 != runs[i - 1].0
}

pub fn run_length_encode_loop(list: &[u32]) -> (r: Vec<(u32, usize)>)
    ensures
        decode(r@) == list@,
        runs_maximal(r@),
{
    let mut result: Vec<(u32, usize)> = Vec::new();
    if list.len() == 0 {
        proof {
            assert(list@ =~= Seq::<u32>::empty());
        }
        return result;
    }
    let mut current_num = list[0];
    let mut count: usize = 1;
    let mut i: usize = 1;
    while i < list.len()
        invariant
            1 <= i <= list@.len(),
            1 <= count <= i,
            decode(result@) + Seq::new(count as nat, |k: int| current_num) == list@.take(i as int),
            runs_maximal(result@),
            result@.len() > 0 ==> result@.last().0 != current_num,
        decreases list@.len() - i,
    {
        let el = list[i];
        let ghost before = decode(result@) + Seq::new(count as nat, |k: int| current_num);
        if el == current_num {
            count = count + 1;
            proof {
                assert(decode(result@) + Seq::new(count as nat, |k: int| current_num) =~= before.push(
                    el,
                ));
            }
        } else {
            let ghost old_result = result@;
            result.push((current_num, count));
            proof {
                assert(result@.drop_last() =~= old_result);
                assert(decode(result@) =~= before);
            }
            current_num = el;
            count = 1;
            proof {
                assert(decode(result@) + Seq::new(count as nat, |k: int| current_num) =~= before.push(
                    el,
                ));
            }
        }
        proof {
            assert(list@.take(i + 1) =~= list@.take(i as int).push(el));
        }
        i = i + 1;
    }
    let ghost old_result = result@;
    result.push((current_num, count));
    proof {
        assert(result@.drop_last() =~= old_result);
        assert(list@.take(list@.len() as int) =~= list@);
    }
    result
}

pub fn run_length_encode(list: &[u32]) -> (r: Vec<(u32, usize)>)
    ensures
        decode(r@) == list@,
        runs_maximal(r@),
{
    run_length_encode_loop(list)
}

} // verus!
