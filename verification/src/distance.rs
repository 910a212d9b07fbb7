//! Levenshtein edit distance, the primitive shared by the character-level
//! (CER) and word-level (WER) error rates.
//!
//! `edit_dist` is the mathematical definition: the least number of single
//! insertions, deletions and substitutions that turn one sequence into
//! another. The executable functions compute it by the standard dynamic
//! programming over a `(|source|+1) x (|target|+1)` matrix and are proved
//! equal to the definition.

use vstd::prelude::*;
use crate::text::chars_of;

verus! {

pub open spec fn min3(a: nat, b: nat, c: nat) -> nat {
    if a <= b && a <= c {
        a
    } else if b <= c {
        b
    } else {
        c
    }
}

/// The edit distance between `s` and `t`: the least number of insertions,
/// deletions and substitutions of single elements that turn `s` into `t`.
pub open spec fn edit_dist<A>(s: Seq<A>, t: Seq<A>) -> nat
    decreases s.len() + t.len(),
{
    if s.len() == 0 {
        t.len()
    } else if t.len() == 0 {
        s.len()
    } else {
        min3(
            edit_dist(s.drop_last(), t) + 1,
            edit_dist(s, t.drop_last()) + 1,
            edit_dist(s.drop_last(), t.drop_last()) + if s.last() == t.last() {
                0nat
            } else {
                1nat
            },
        )
    }
}

/// Turning a sequence into itself needs no edits.
pub proof fn lemma_edit_dist_identity<A>(s: Seq<A>)
    ensures
        edit_dist(s, s) == 0,
    decreases s.len(),
{
    if s.len() != 0 {
        lemma_edit_dist_identity(s.drop_last());
    }
}

/// The distance to or from the empty sequence is the other sequence's length.
pub proof fn lemma_edit_dist_empty<A>(s: Seq<A>)
    ensures
        edit_dist(Seq::<A>::empty(), s) == s.len(),
        edit_dist(s, Seq::<A>::empty()) == s.len(),
{
}

/// Edit distance is symmetric: each edit script from `s` to `t` inverts into
/// one from `t` to `s` of the same length.
pub proof fn lemma_edit_dist_symmetric<A>(s: Seq<A>, t: Seq<A>)
    ensures
        edit_dist(s, t) == edit_dist(t, s),
    decreases s.len() + t.len(),
{
    if s.len() != 0 && t.len() != 0 {
        lemma_edit_dist_symmetric(s.drop_last(), t);
        lemma_edit_dist_symmetric(s, t.drop_last());
        lemma_edit_dist_symmetric(s.drop_last(), t.drop_last());
    }
}

/// The distance never exceeds the longer length: substitute along the
/// shorter sequence, then insert or delete the rest.
pub proof fn lemma_edit_dist_le_max<A>(s: Seq<A>, t: Seq<A>)
    ensures
        edit_dist(s, t) <= if s.len() >= t.len() {
            s.len()
        } else {
            t.len()
        },
    decreases s.len() + t.len(),
{
    if s.len() != 0 && t.len() != 0 {
        lemma_edit_dist_le_max(s.drop_last(), t.drop_last());
    }
}

/// The dynamic programming recurrence on prefixes, as the filling loop uses
/// it: the distance of the `i`- and `j`-prefixes satisfies the three-way
/// minimum over the neighbouring cells.
proof fn lemma_edit_dist_step<A>(s: Seq<A>, t: Seq<A>, i: int, j: int)
    requires
        1 <= i <= s.len(),
        1 <= j <= t.len(),
    ensures
        edit_dist(s.take(i), t.take(j)) == min3(
            edit_dist(s.take(i - 1), t.take(j)) + 1,
            edit_dist(s.take(i), t.take(j - 1)) + 1,
            edit_dist(s.take(i - 1), t.take(j - 1)) + if s[i - 1] == t[j - 1] {
                0nat
            } else {
                1nat
            },
        ),
{
    let a = s.take(i);
    let b = t.take(j);
    assert(a.drop_last() =~= s.take(i - 1));
    assert(b.drop_last() =~= t.take(j - 1));
    assert(a.last() == s[i - 1]);
    assert(b.last() == t[j - 1]);
}

fn min3_exec(a: u128, b: u128, c: u128) -> (r: u128)
    ensures
        r == min3(a as nat, b as nat, c as nat),
{
    if a <= b && a <= c {
        a
    } else if b <= c {
        b
    } else {
        c
    }
}

/// The edit distance between the images of two element vectors under the
/// ghost abstraction `f`, computed by dynamic programming. `eq` must decide
/// equality of the abstractions of two elements.
fn dp_distance<A, B>(
    s: &Vec<A>,
    t: &Vec<A>,
    eq: impl Fn(&A, &A) -> bool,
    Ghost(f): Ghost<spec_fn(A) -> B>,
) -> (r: usize)
    requires
        forall|x: &A, y: &A| #[trigger] call_requires(eq, (x, y)),
        forall|x: &A, y: &A, b: bool|
            #[trigger] call_ensures(eq, (x, y), b) ==> b == (f(*x) == f(*y)),
    ensures
        r == edit_dist(s@.map_values(f), t@.map_values(f)),
{
    let ghost ms = s@.map_values(f);
    let ghost mt = t@.map_values(f);
    let m = s.len();
    let n = t.len();
    let mut prev: Vec<u128> = Vec::new();
    prev.push(0);
    proof {
        assert(ms.take(0) =~= Seq::<B>::empty());
        assert(mt.take(0) =~= Seq::<B>::empty());
    }
    let mut j: usize = 0;
    while j < n
        invariant
            j <= n,
            n == mt.len(),
            prev@.len() == j + 1,
            forall|k: int| 0 <= k <= j ==> prev@[k] == edit_dist(ms.take(0), mt.take(k)),
        decreases n - j,
    {
        j = j + 1;
        proof {
            assert(ms.take(0) =~= Seq::<B>::empty());
            assert(mt.take(j as int).len() == j);
        }
        prev.push(j as u128);
    }
    let mut i: usize = 0;
    while i < m
        invariant
            i <= m,
            m == s@.len() == ms.len(),
            n == t@.len() == mt.len(),
            ms == s@.map_values(f),
            mt == t@.map_values(f),
            prev@.len() == n + 1,
            forall|k: int| 0 <= k <= n ==> prev@[k] == edit_dist(ms.take(i as int), mt.take(k)),
            forall|x: &A, y: &A| #[trigger] call_requires(eq, (x, y)),
            forall|x: &A, y: &A, b: bool|
                #[trigger] call_ensures(eq, (x, y), b) ==> b == (f(*x) == f(*y)),
        decreases m - i,
    {
        let i1 = i + 1;
        let mut row: Vec<u128> = Vec::new();
        row.push(i1 as u128);
        proof {
            assert(mt.take(0) =~= Seq::<B>::empty());
            assert(ms.take(i1 as int).len() == i1);
        }
        let mut j: usize = 0;
        while j < n
            invariant
                j <= n,
                i1 == i + 1,
                i < m,
                m == s@.len() == ms.len(),
                n == t@.len() == mt.len(),
                ms == s@.map_values(f),
                mt == t@.map_values(f),
                prev@.len() == n + 1,
                forall|k: int| 0 <= k <= n ==> prev@[k] == edit_dist(ms.take(i as int), mt.take(k)),
                row@.len() == j + 1,
                forall|k: int| 0 <= k <= j ==> row@[k] == edit_dist(ms.take(i1 as int), mt.take(k)),
                forall|x: &A, y: &A| #[trigger] call_requires(eq, (x, y)),
                forall|x: &A, y: &A, b: bool|
                    #[trigger] call_ensures(eq, (x, y), b) ==> b == (f(*x) == f(*y)),
            decreases n - j,
        {
            let j1 = j + 1;
            proof {
                lemma_edit_dist_le_max(ms.take(i as int), mt.take(j1 as int));
                lemma_edit_dist_le_max(ms.take(i1 as int), mt.take(j as int));
                lemma_edit_dist_le_max(ms.take(i as int), mt.take(j as int));
                lemma_edit_dist_step(ms, mt, i1 as int, j1 as int);
                assert(ms[i1 - 1] == f(s@[i as int]));
                assert(mt[j1 - 1] == f(t@[j as int]));
            }
            let same = eq(&s[i], &t[j]);
            let sub_cost: u128 = if same {
                0
            } else {
                1
            };
            let cell = min3_exec(prev[j1] + 1, row[j] + 1, prev[j] + sub_cost);
            row.push(cell);
            j = j1;
        }
        prev = row;
        i = i1;
    }
    proof {
        assert(ms.take(m as int) =~= ms);
        assert(mt.take(n as int) =~= mt);
        lemma_edit_dist_le_max(ms, mt);
    }
    prev[n] as usize
}

/// The Levenshtein distance between two strings, counted in characters:
/// the least number of character insertions, deletions and substitutions
/// that turn `source` into `target`. Characters are compared by structural
/// equality; no Unicode normalization or case folding is applied.
pub fn levenshtein_distance(source: &str, target: &str) -> (r: usize)
    ensures
        r == edit_dist(source@, target@),
{
    let sc = chars_of(source);
    let tc = chars_of(target);
    let eq = |a: &char, b: &char| -> (r: bool)
        ensures
            r == (*a == *b),
        { *a == *b };
    let ghost ident: spec_fn(char) -> char = |c: char| c;
    let r = dp_distance::<char, char>(&sc, &tc, eq, Ghost(ident));
    proof {
        assert(sc@.map_values(ident) =~= source@);
        assert(tc@.map_values(ident) =~= target@);
    }
    r
}

/// The Levenshtein distance between two word sequences: the least number of
/// whole-word insertions, deletions and substitutions that turn `source`
/// into `target`. Words are compared by exact string equality.
pub fn word_levenshtein_distance(source: &Vec<String>, target: &Vec<String>) -> (r: usize)
    ensures
        r == edit_dist(source@.map_values(|w: String| w@), target@.map_values(|w: String| w@)),
{
    let eq = |a: &String, b: &String| -> (r: bool)
        ensures
            r == (a@ == b@),
        { a.eq(b) };
    let ghost vw: spec_fn(String) -> Seq<char> = |w: String| w@;
    dp_distance::<String, Seq<char>>(source, target, eq, Ghost(vw))
}

} // verus!
