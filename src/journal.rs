use vstd::prelude::*;
use vstd::string::StrSliceExecFns;
use vstd::string::StringExecFns;
use crate::record::views_of;

verus! {

/// The characters that Unicode calls White_Space.
pub open spec fn is_white(c: char) -> bool {
    ('\u{9}' <= c && c <= '\u{d}') || c == ' ' || c == '\u{85}' || c == '\u{a0}' || c
        == '\u{1680}' || ('\u{2000}' <= c && c <= '\u{200a}') || c == '\u{2028}' || c
        == '\u{2029}' || c == '\u{202f}' || c == '\u{205f}' || c == '\u{3000}'
}

pub open spec fn trim_start(s: Seq<char>) -> Seq<char>
    decreases s.len(),
{
    if s.len() > 0 && is_white(s[0]) {
        trim_start(s.drop_first())
    } else {
        s
    }
}

pub open spec fn trim_end(s: Seq<char>) -> Seq<char>
    decreases s.len(),
{
    if s.len() > 0 && is_white(s.last()) {
        trim_end(s.drop_last())
    } else {
        s
    }
}

/// A line without its leading and trailing white space.
pub open spec fn trim(s: Seq<char>) -> Seq<char> {
    trim_end(trim_start(s))
}

/// The pieces of `s` between line breaks; there is always one more piece
/// than there are breaks.
pub open spec fn split_lines(s: Seq<char>) -> Seq<Seq<char>>
    decreases s.len(),
{
    if s.len() == 0 {
        seq![Seq::empty()]
    } else {
        let prev = split_lines(s.drop_last());
        if s.last() == '\n' {
            prev.push(Seq::empty())
        } else {
            prev.update(prev.len() - 1, prev.last().push(s.last()))
        }
    }
}

/// The trimmed pieces that are not empty, in order.
pub open spec fn nonempty_trimmed(pieces: Seq<Seq<char>>) -> Seq<Seq<char>>
    decreases pieces.len(),
{
    if pieces.len() == 0 {
        Seq::empty()
    } else {
        let prev = nonempty_trimmed(pieces.drop_last());
        if trim(pieces.last()).len() > 0 {
            prev.push(trim(pieces.last()))
        } else {
            prev
        }
    }
}

/// The commands that a journal file holds: its lines, trimmed, empty ones left out.
pub open spec fn commands_of(text: Seq<char>) -> Seq<Seq<char>> {
    nonempty_trimmed(split_lines(text))
}

/// A journal: each line followed by a line break.
pub open spec fn journal_text(lines: Seq<Seq<char>>) -> Seq<char>
    decreases lines.len(),
{
    if lines.len() == 0 {
        Seq::empty()
    } else {
        journal_text(lines.drop_last()) + lines.last() + seq!['\n']
    }
}

proof fn lemma_split_prefix_is_split(s: Seq<char>)
    ensures
        split_lines(s).len() > 0,
    decreases s.len(),
{
    if s.len() > 0 {
        lemma_split_prefix_is_split(s.drop_last());
    }
}

/// Appending text without a line break extends the last piece.
proof fn lemma_split_append(x: Seq<char>, l: Seq<char>)
    requires
        !l.contains('\n'),
    ensures
        split_lines(x + l) == split_lines(x).update(
            split_lines(x).len() - 1,
            split_lines(x).last() + l,
        ),
    decreases l.len(),
{
    lemma_split_prefix_is_split(x);
    if l.len() == 0 {
        assert(x + l =~= x);
        assert(split_lines(x).last() + l =~= split_lines(x).last());
        assert(split_lines(x).update(split_lines(x).len() - 1, split_lines(x).last()) =~= split_lines(x));
    } else {
        let l0 = l.drop_last();
        assert(!l0.contains('\n')) by {
            if l0.contains('\n') {
                let k = choose|k: int| 0 <= k < l0.len() && l0[k] == '\n';
                assert(l[k] == '\n');
            }
        }
        assert(l.last() != '\n') by {
            if l.last() == '\n' {
                assert(l[l.len() - 1] == '\n');
            }
        }
        lemma_split_append(x, l0);
        assert((x + l).drop_last() =~= x + l0);
        assert((x + l).last() == l.last());
        assert(split_lines(x).last() + l =~= (split_lines(x).last() + l0).push(l.last()));
        assert(split_lines(x + l) =~= split_lines(x).update(
            split_lines(x).len() - 1,
            split_lines(x).last() + l,
        ));
    }
}

/// A journal splits into its lines and one empty piece after the last break.
proof fn lemma_split_journal(lines: Seq<Seq<char>>)
    requires
        forall|i: int| 0 <= i < lines.len() ==> !(#[trigger] lines[i]).contains('\n'),
    ensures
        split_lines(journal_text(lines)) == lines.push(Seq::empty()),
    decreases lines.len(),
{
    if lines.len() == 0 {
        assert(split_lines(Seq::<char>::empty()) =~= seq![Seq::<char>::empty()]);
        assert(lines.push(Seq::empty()) =~= seq![Seq::<char>::empty()]);
    } else {
        let prev = lines.drop_last();
        assert forall|i: int| 0 <= i < prev.len() implies !(#[trigger] prev[i]).contains('\n') by {
            assert(prev[i] == lines[i]);
        }
        lemma_split_journal(prev);
        let x = journal_text(prev);
        let l = lines.last();
        assert(!l.contains('\n')) by {
            assert(lines[lines.len() - 1] == l);
        }
        lemma_split_append(x, l);
        assert(split_lines(x + l) =~= prev.push(l)) by {
            assert(Seq::<char>::empty() + l =~= l);
        }
        let y = x + l + seq!['\n'];
        assert(y.drop_last() =~= x + l);
        assert(journal_text(lines) == y);
        assert(prev.push(l) =~= lines);
    }
}

proof fn lemma_nonempty_trimmed_clean(lines: Seq<Seq<char>>)
    requires
        forall|i: int| 0 <= i < lines.len() ==> trim(#[trigger] lines[i]) == lines[i] && lines[i].len() > 0,
    ensures
        nonempty_trimmed(lines) == lines,
    decreases lines.len(),
{
    if lines.len() > 0 {
        let prev = lines.drop_last();
        assert forall|i: int| 0 <= i < prev.len() implies trim(#[trigger] prev[i]) == prev[i] && prev[i].len() > 0 by {
            assert(prev[i] == lines[i]);
        }
        lemma_nonempty_trimmed_clean(prev);
        assert(trim(lines[lines.len() - 1]) == lines.last());
        assert(prev.push(lines.last()) =~= lines);
    }
}

/// Writing commands to a journal and reading it back gives the same
/// commands, when each is a single line without surrounding white space.
pub proof fn lemma_journal_round_trip(lines: Seq<Seq<char>>)
    requires
        forall|i: int|
            0 <= i < lines.len() ==> !(#[trigger] lines[i]).contains('\n') && lines[i].len() > 0
                && trim(lines[i]) == lines[i],
    ensures
        commands_of(journal_text(lines)) == lines,
{
    lemma_split_journal(lines);
    let pieces = lines.push(Seq::<char>::empty());
    assert(pieces.drop_last() =~= lines);
    assert(trim_start(Seq::<char>::empty()) == Seq::<char>::empty());
    assert(trim(Seq::<char>::empty()).len() == 0);
    lemma_nonempty_trimmed_clean(lines);
}

fn is_white_char(c: char) -> (r: bool)
    ensures
        r == is_white(c),
{
    ('\u{9}' <= c && c <= '\u{d}') || c == ' ' || c == '\u{85}' || c == '\u{a0}' || c
        == '\u{1680}' || ('\u{2000}' <= c && c <= '\u{200a}') || c == '\u{2028}' || c
        == '\u{2029}' || c == '\u{202f}' || c == '\u{205f}' || c == '\u{3000}'
}

proof fn lemma_trim_start_at(s: Seq<char>, a: int)
    requires
        0 <= a <= s.len(),
        forall|j: int| 0 <= j < a ==> is_white(#[trigger] s[j]),
        a == s.len() || !is_white(s[a]),
    ensures
        trim_start(s) == s.subrange(a, s.len() as int),
    decreases a,
{
    if a > 0 {
        assert forall|j: int| 0 <= j < a - 1 implies is_white(#[trigger] s.drop_first()[j]) by {
            assert(s.drop_first()[j] == s[j + 1]);
        }
        if a < s.len() {
            assert(s.drop_first()[a - 1] == s[a]);
        }
        lemma_trim_start_at(s.drop_first(), a - 1);
        assert(s.drop_first().subrange(a - 1, s.len() - 1) =~= s.subrange(a, s.len() as int));
    } else {
        assert(s.subrange(0, s.len() as int) =~= s);
    }
}

proof fn lemma_trim_end_at(s: Seq<char>, b: int)
    requires
        0 <= b <= s.len(),
        forall|j: int| b <= j < s.len() ==> is_white(#[trigger] s[j]),
        b == 0 || !is_white(s[b - 1]),
    ensures
        trim_end(s) == s.subrange(0, b),
    decreases s.len() - b,
{
    if b < s.len() {
        assert forall|j: int| b <= j < s.len() - 1 implies is_white(#[trigger] s.drop_last()[j]) by {
            assert(s.drop_last()[j] == s[j]);
        }
        if b > 0 {
            assert(s.drop_last()[b - 1] == s[b - 1]);
        }
        assert(is_white(s[s.len() - 1]));
        lemma_trim_end_at(s.drop_last(), b);
        assert(s.drop_last().subrange(0, b) =~= s.subrange(0, b));
    } else {
        assert(s.subrange(0, b) =~= s);
    }
}

/// The trimmed characters of `piece`, as a string.
fn trimmed(piece: &Vec<char>) -> (r: String)
    ensures
        r@ == trim(piece@),
{
    let n = piece.len();
    let mut a: usize = 0;
    while a < n && is_white_char(piece[a])
        invariant
            a <= n,
            n == piece@.len(),
            forall|j: int| 0 <= j < a ==> is_white(#[trigger] piece@[j]),
        decreases n - a,
    {
        a = a + 1;
    }
    proof {
        lemma_trim_start_at(piece@, a as int);
    }
    let ghost t = piece@.subrange(a as int, n as int);
    let mut b: usize = n;
    while b > a && is_white_char(piece[b - 1])
        invariant
            a <= b <= n,
            n == piece@.len(),
            forall|j: int| b <= j < n ==> is_white(#[trigger] piece@[j]),
        decreases b,
    {
        b = b - 1;
    }
    proof {
        assert forall|j: int| b - a <= j < t.len() implies is_white(#[trigger] t[j]) by {
            assert(t[j] == piece@[a + j]);
        }
        if b > a {
            assert(t[b - a - 1] == piece@[b - 1]);
        }
        lemma_trim_end_at(t, (b - a) as int);
        assert(t.subrange(0, (b - a) as int) =~= piece@.subrange(a as int, b as int));
    }
    let mut out = String::new();
    let mut k: usize = a;
    while k < b
        invariant
            a <= k <= b,
            b <= n,
            n == piece@.len(),
            out@ == piece@.subrange(a as int, k as int),
        decreases b - k,
    {
        crate::expr::push_char(&mut out, piece[k]);
        proof {
            assert(piece@.subrange(a as int, k + 1) =~= piece@.subrange(a as int, k as int).push(
                piece@[k as int],
            ));
        }
        k = k + 1;
    }
    out
}

/// Keeps a piece when it is not empty once trimmed.
fn emit(out: &mut Vec<String>, piece: &Vec<char>)
    ensures
        views_of(final(out)@) == if trim(piece@).len() > 0 {
            views_of(old(out)@).push(trim(piece@))
        } else {
            views_of(old(out)@)
        },
{
    let t = trimmed(piece);
    if t.as_str().unicode_len() > 0 {
        let ghost before = out@;
        out.push(t);
        proof {
            assert(views_of(out@) =~= views_of(before).push(trim(piece@)));
        }
    }
}

/// The commands held by the text of a journal file: its lines, trimmed,
/// the empty ones left out.
pub fn commands_in(contents: &str) -> (r: Vec<String>)
    ensures
        views_of(r@) == commands_of(contents@),
{
    let n = contents.unicode_len();
    let mut out: Vec<String> = Vec::new();
    let mut cur: Vec<char> = Vec::new();
    let ghost mut done: Seq<Seq<char>> = Seq::empty();
    let mut i: usize = 0;
    assert(contents@.take(0) =~= Seq::<char>::empty());
    while i < n
        invariant
            i <= n,
            n == contents@.len(),
            split_lines(contents@.take(i as int)) == done.push(cur@),
            views_of(out@) == nonempty_trimmed(done),
        decreases n - i,
    {
        let c = contents.get_char(i);
        proof {
            assert(contents@.take(i + 1).drop_last() =~= contents@.take(i as int));
            assert(contents@.take(i + 1).last() == c);
        }
        if c == '\n' {
            emit(&mut out, &cur);
            proof {
                assert(done.push(cur@).drop_last() =~= done);
                done = done.push(cur@);
            }
            cur = Vec::new();
            proof {
                assert(cur@ =~= Seq::<char>::empty());
            }
        } else {
            let ghost before = cur@;
            cur.push(c);
            proof {
                assert(done.push(before).update(done.len() as int, before.push(c)) =~= done.push(cur@));
            }
        }
        i = i + 1;
    }
    emit(&mut out, &cur);
    proof {
        assert(contents@.take(n as int) =~= contents@);
        assert(done.push(cur@).drop_last() =~= done);
    }
    out
}

/// The text of a journal holding `lines`, each followed by a line break.
pub fn journal_of(lines: &Vec<String>) -> (r: String)
    ensures
        r@ == journal_text(views_of(lines@)),
{
    let mut out = String::new();
    let mut i: usize = 0;
    while i < lines.len()
        invariant
            i <= lines@.len(),
            out@ == journal_text(views_of(lines@).take(i as int)),
        decreases lines@.len() - i,
    {
        out.append(lines[i].as_str());
        crate::expr::push_char(&mut out, '\n');
        proof {
            assert(views_of(lines@).take(i + 1).drop_last() =~= views_of(lines@).take(i as int));
        }
        i = i + 1;
    }
    proof {
        assert(views_of(lines@).take(lines@.len() as int) =~= views_of(lines@));
    }
    out
}

} // verus!
