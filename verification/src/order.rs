//! Lexicographic order of texts, as `str` orders them, the order of
//! paths, and sorted association lists keyed by text.

use vstd::prelude::*;

verus! {

/// `a` sorts before `b`: character by character by code point, a proper
/// prefix first. This is `str`'s order, which compares UTF-8 bytes.
pub open spec fn lex_lt(a: Seq<char>, b: Seq<char>) -> bool
    decreases a.len(),
{
    if a.len() == 0 {
        b.len() > 0
    } else if b.len() == 0 {
        false
    } else if a[0] < b[0] {
        true
    } else if a[0] == b[0] {
        lex_lt(a.drop_first(), b.drop_first())
    } else {
        false
    }
}

/// No text sorts before itself.
pub proof fn lemma_lex_irreflexive(a: Seq<char>)
    ensures
        !lex_lt(a, a),
    decreases a.len(),
{
    if a.len() > 0 {
        lemma_lex_irreflexive(a.drop_first());
    }
}

/// Of two different texts, one sorts before the other, and never both.
pub proof fn lemma_lex_total(a: Seq<char>, b: Seq<char>)
    ensures
        a != b ==> lex_lt(a, b) || lex_lt(b, a),
        !(lex_lt(a, b) && lex_lt(b, a)),
    decreases a.len(),
{
    if a.len() > 0 && b.len() > 0 {
        if a[0] == b[0] {
            lemma_lex_total(a.drop_first(), b.drop_first());
            if a.drop_first() == b.drop_first() {
                assert(a =~= seq![a[0]] + a.drop_first());
                assert(b =~= seq![b[0]] + b.drop_first());
            }
        } else if a[0] < b[0] {
            assert(lex_lt(a, b));
        } else {
            assert(b[0] < a[0]);
            assert(lex_lt(b, a));
        }
    } else if a.len() == 0 && b.len() == 0 {
        assert(a =~= b);
    }
}

/// The order is transitive.
pub proof fn lemma_lex_transitive(a: Seq<char>, b: Seq<char>, c: Seq<char>)
    requires
        lex_lt(a, b),
        lex_lt(b, c),
    ensures
        lex_lt(a, c),
    decreases a.len(),
{
    if a.len() > 0 && b.len() > 0 && c.len() > 0 && a[0] == b[0] && b[0] == c[0] {
        lemma_lex_transitive(a.drop_first(), b.drop_first(), c.drop_first());
    }
}

/// Compare two texts: negative when `a` sorts first, zero when they are
/// equal, positive when `b` sorts first.
pub fn compare_chars(a: &[char], b: &[char]) -> (r: i8)
    ensures
        (r < 0) == lex_lt(a@, b@),
        (r == 0) == (a@ == b@),
        (r > 0) == lex_lt(b@, a@),
{
    let mut i: usize = 0;
    proof {
        lemma_lex_total(a@, b@);
        assert(a@.skip(0) =~= a@);
        assert(b@.skip(0) =~= b@);
    }
    while i < a.len() && i < b.len()
        invariant
            i <= a@.len(),
            i <= b@.len(),
            a@.take(i as int) == b@.take(i as int),
            lex_lt(a@, b@) == lex_lt(a@.skip(i as int), b@.skip(i as int)),
            lex_lt(b@, a@) == lex_lt(b@.skip(i as int), a@.skip(i as int)),
        decreases a@.len() - i,
    {
        let x = a[i];
        let y = b[i];
        assert(a@.skip(i as int)[0] == x && b@.skip(i as int)[0] == y);
        if x != y {
            proof {
                if a@ == b@ {
                    assert(a@[i as int] == b@[i as int]);
                }
            }
            if x < y {
                return -1;
            } else {
                return 1;
            }
        }
        assert(a@.skip(i as int).drop_first() =~= a@.skip(i + 1));
        assert(b@.skip(i as int).drop_first() =~= b@.skip(i + 1));
        assert(a@.take(i + 1) =~= a@.take(i as int).push(x));
        assert(b@.take(i + 1) =~= b@.take(i as int).push(y));
        i = i + 1;
    }
    if a.len() == b.len() {
        assert(a@ =~= a@.take(i as int));
        assert(b@ =~= b@.take(i as int));
        proof {
            lemma_lex_irreflexive(a@);
        }
        0
    } else if a.len() < b.len() {
        assert(a@.skip(i as int).len() == 0);
        assert(a@ != b@);
        -1
    } else {
        assert(b@.skip(i as int).len() == 0);
        assert(a@ != b@);
        1
    }
}

/// The rank of a character when paths are compared: the separator `/`
/// before every other character, the others by code point.
pub open spec fn path_rank(c: char) -> int {
    if c == '/' {
        -1
    } else {
        c as int
    }
}

/// Different characters have different ranks.
proof fn lemma_path_rank_injective(x: char, y: char)
    ensures
        x != y ==> path_rank(x) != path_rank(y),
{
    assert(0 <= x as int && 0 <= y as int);
    assert(x != y ==> x as int != y as int);
}

/// `a` sorts before `b` as a path: character by character by `path_rank`,
/// a proper prefix first. For paths with no empty, `.` or `..` component and
/// no trailing separator this is the order of their components, each
/// component compared by code point, which is how `std::path::Path` orders.
pub open spec fn path_lt(a: Seq<char>, b: Seq<char>) -> bool
    decreases a.len(),
{
    if a.len() == 0 {
        b.len() > 0
    } else if b.len() == 0 {
        false
    } else if path_rank(a[0]) < path_rank(b[0]) {
        true
    } else if a[0] == b[0] {
        path_lt(a.drop_first(), b.drop_first())
    } else {
        false
    }
}

/// No path sorts before itself.
pub proof fn lemma_path_irreflexive(a: Seq<char>)
    ensures
        !path_lt(a, a),
    decreases a.len(),
{
    if a.len() > 0 {
        lemma_path_irreflexive(a.drop_first());
    }
}

/// Of two different paths, one sorts before the other, and never both.
pub proof fn lemma_path_total(a: Seq<char>, b: Seq<char>)
    ensures
        a != b ==> path_lt(a, b) || path_lt(b, a),
        !(path_lt(a, b) && path_lt(b, a)),
    decreases a.len(),
{
    if a.len() > 0 && b.len() > 0 {
        if a[0] == b[0] {
            lemma_path_total(a.drop_first(), b.drop_first());
            if a.drop_first() == b.drop_first() {
                assert(a =~= seq![a[0]] + a.drop_first());
                assert(b =~= seq![b[0]] + b.drop_first());
            }
        } else if path_rank(a[0]) < path_rank(b[0]) {
            assert(path_lt(a, b));
        } else {
            lemma_path_rank_injective(a[0], b[0]);
            assert(path_rank(b[0]) < path_rank(a[0]));
            assert(path_lt(b, a));
        }
    } else if a.len() == 0 && b.len() == 0 {
        assert(a =~= b);
    }
}

/// The path order is transitive.
pub proof fn lemma_path_transitive(a: Seq<char>, b: Seq<char>, c: Seq<char>)
    requires
        path_lt(a, b),
        path_lt(b, c),
    ensures
        path_lt(a, c),
    decreases a.len(),
{
    if a.len() > 0 && b.len() > 0 && c.len() > 0 && a[0] == b[0] && b[0] == c[0] {
        lemma_path_transitive(a.drop_first(), b.drop_first(), c.drop_first());
    }
}

fn path_rank_exec(c: char) -> (r: i64)
    ensures
        r == path_rank(c),
{
    if c == '/' {
        -1
    } else {
        c as u32 as i64
    }
}

/// Compare two paths: negative when `a` sorts first, zero when they are
/// equal, positive when `b` sorts first.
pub fn compare_paths(a: &[char], b: &[char]) -> (r: i8)
    ensures
        (r < 0) == path_lt(a@, b@),
        (r == 0) == (a@ == b@),
        (r > 0) == path_lt(b@, a@),
{
    let mut i: usize = 0;
    proof {
        lemma_path_total(a@, b@);
        assert(a@.skip(0) =~= a@);
        assert(b@.skip(0) =~= b@);
    }
    while i < a.len() && i < b.len()
        invariant
            i <= a@.len(),
            i <= b@.len(),
            a@.take(i as int) == b@.take(i as int),
            path_lt(a@, b@) == path_lt(a@.skip(i as int), b@.skip(i as int)),
            path_lt(b@, a@) == path_lt(b@.skip(i as int), a@.skip(i as int)),
        decreases a@.len() - i,
    {
        let x = a[i];
        let y = b[i];
        assert(a@.skip(i as int)[0] == x && b@.skip(i as int)[0] == y);
        if x != y {
            proof {
                if a@ == b@ {
                    assert(a@[i as int] == b@[i as int]);
                }
                lemma_path_rank_injective(x, y);
            }
            if path_rank_exec(x) < path_rank_exec(y) {
                return -1;
            } else {
                return 1;
            }
        }
        assert(a@.skip(i as int).drop_first() =~= a@.skip(i + 1));
        assert(b@.skip(i as int).drop_first() =~= b@.skip(i + 1));
        assert(a@.take(i + 1) =~= a@.take(i as int).push(x));
        assert(b@.take(i + 1) =~= b@.take(i as int).push(y));
        i = i + 1;
    }
    if a.len() == b.len() {
        assert(a@ =~= a@.take(i as int));
        assert(b@ =~= b@.take(i as int));
        proof {
            lemma_path_irreflexive(a@);
        }
        0
    } else if a.len() < b.len() {
        assert(a@.skip(i as int).len() == 0);
        assert(a@ != b@);
        -1
    } else {
        assert(b@.skip(i as int).len() == 0);
        assert(a@ != b@);
        1
    }
}

/// The keys of an association list are strictly increasing.
pub open spec fn keys_sorted<V>(l: Seq<(Seq<char>, V)>) -> bool {
    forall|i: int, j: int| 0 <= i < j < l.len() ==> lex_lt(#[trigger] l[i].0, #[trigger] l[j].0)
}

/// Some entry of `l` has key `x`.
pub open spec fn has_key<V>(l: Seq<(Seq<char>, V)>, x: Seq<char>) -> bool {
    exists|i: int| 0 <= i < l.len() && l[i].0 == x
}

/// The value stored under `k`: that of the first entry with this key.
pub open spec fn assoc_get<V>(l: Seq<(Seq<char>, V)>, k: Seq<char>) -> Option<V>
    decreases l.len(),
{
    if l.len() == 0 {
        None
    } else if l[0].0 == k {
        Some(l[0].1)
    } else {
        assoc_get(l.drop_first(), k)
    }
}

/// Store `v` under `k`: replace the value of the first entry with key `k`
/// met before a greater key, else insert `(k, v)` before the first greater key.
pub open spec fn assoc_put<V>(l: Seq<(Seq<char>, V)>, k: Seq<char>, v: V) -> Seq<(Seq<char>, V)>
    decreases l.len(),
{
    if l.len() == 0 {
        seq![(k, v)]
    } else if l[0].0 == k {
        seq![(k, v)] + l.drop_first()
    } else if lex_lt(k, l[0].0) {
        seq![(k, v)] + l
    } else {
        seq![l[0]] + assoc_put(l.drop_first(), k, v)
    }
}

proof fn lemma_assoc_get_cons<V>(x: (Seq<char>, V), rest: Seq<(Seq<char>, V)>, k: Seq<char>)
    ensures
        assoc_get(seq![x] + rest, k) == (if x.0 == k {
            Some(x.1)
        } else {
            assoc_get(rest, k)
        }),
{
    assert((seq![x] + rest).drop_first() =~= rest);
}

/// Storing into a sorted list keeps it sorted, and a lookup of the stored
/// key then finds the stored value while other keys keep theirs.
pub proof fn lemma_assoc_put<V>(l: Seq<(Seq<char>, V)>, k: Seq<char>, v: V)
    requires
        keys_sorted(l),
    ensures
        keys_sorted(assoc_put(l, k, v)),
        assoc_get(assoc_put(l, k, v), k) == Some(v),
        forall|k2: Seq<char>| k2 != k ==> assoc_get(assoc_put(l, k, v), k2) == assoc_get(l, k2),
        forall|x: Seq<char>| #[trigger] has_key(assoc_put(l, k, v), x) ==> (x == k || has_key(l, x)),
    decreases l.len(),
{
    let r = assoc_put(l, k, v);
    if l.len() == 0 {
        assert forall|k2: Seq<char>| k2 != k implies assoc_get(r, k2) == assoc_get(l, k2) by {
            lemma_assoc_get_cons((k, v), l, k2);
            assert(r =~= seq![(k, v)] + l);
        }
    } else if l[0].0 == k {
        assert forall|i: int, j: int| 0 <= i < j < r.len() implies lex_lt(
            #[trigger] r[i].0,
            #[trigger] r[j].0,
        ) by {
            assert(r[i].0 == l[i].0);
            assert(r[j].0 == l[j].0);
        }
        assert(r.drop_first() =~= l.drop_first());
        assert forall|k2: Seq<char>| k2 != k implies assoc_get(r, k2) == assoc_get(l, k2) by {
            lemma_assoc_get_cons((k, v), l.drop_first(), k2);
            lemma_assoc_get_cons(l[0], l.drop_first(), k2);
            assert(l =~= seq![l[0]] + l.drop_first());
        }
        assert forall|x: Seq<char>| #[trigger] has_key(r, x) implies (x == k || has_key(l, x)) by {
            let i = choose|i: int| 0 <= i < r.len() && r[i].0 == x;
            assert(l[i].0 == x);
        }
    } else if lex_lt(k, l[0].0) {
        assert forall|i: int, j: int| 0 <= i < j < r.len() implies lex_lt(
            #[trigger] r[i].0,
            #[trigger] r[j].0,
        ) by {
            if i == 0 {
                assert(r[j].0 == l[j - 1].0);
                if j > 1 {
                    assert(lex_lt(l[0].0, l[j - 1].0));
                    lemma_lex_transitive(k, l[0].0, l[j - 1].0);
                }
            } else {
                assert(r[i].0 == l[i - 1].0);
                assert(r[j].0 == l[j - 1].0);
            }
        }
        assert(r.drop_first() =~= l);
        assert forall|k2: Seq<char>| k2 != k implies assoc_get(r, k2) == assoc_get(l, k2) by {
            lemma_assoc_get_cons((k, v), l, k2);
        }
        assert forall|x: Seq<char>| #[trigger] has_key(r, x) implies (x == k || has_key(l, x)) by {
            let i = choose|i: int| 0 <= i < r.len() && r[i].0 == x;
            if i > 0 {
                assert(l[i - 1].0 == x);
            }
        }
    } else {
        let t = l.drop_first();
        assert(keys_sorted(t)) by {
            assert forall|i: int, j: int| 0 <= i < j < t.len() implies lex_lt(
                #[trigger] t[i].0,
                #[trigger] t[j].0,
            ) by {
                assert(t[i] == l[i + 1]);
                assert(t[j] == l[j + 1]);
            }
        }
        lemma_assoc_put(t, k, v);
        let rt = assoc_put(t, k, v);
        assert(r =~= seq![l[0]] + rt);
        lemma_lex_total(k, l[0].0);
        assert forall|i: int, j: int| 0 <= i < j < r.len() implies lex_lt(
            #[trigger] r[i].0,
            #[trigger] r[j].0,
        ) by {
            if i == 0 {
                assert(r[j] == rt[j - 1]);
                let x = rt[j - 1].0;
                assert(has_key(rt, x));
                if x == k {
                } else {
                    let m = choose|m: int| 0 <= m < t.len() && t[m].0 == x;
                    assert(t[m] == l[m + 1]);
                }
            } else {
                assert(r[i] == rt[i - 1]);
                assert(r[j] == rt[j - 1]);
            }
        }
        assert forall|k2: Seq<char>| k2 != k implies assoc_get(r, k2) == assoc_get(l, k2) by {
            lemma_assoc_get_cons(l[0], rt, k2);
            lemma_assoc_get_cons(l[0], t, k2);
            assert(l =~= seq![l[0]] + t);
        }
        lemma_assoc_get_cons(l[0], rt, k);
        assert(r.drop_first() =~= rt);
        assert forall|x: Seq<char>| #[trigger] has_key(r, x) implies (x == k || has_key(l, x)) by {
            let i = choose|i: int| 0 <= i < r.len() && r[i].0 == x;
            if i > 0 {
                assert(rt[i - 1].0 == x);
                assert(has_key(rt, x));
                if x != k {
                    assert(has_key(t, x));
                    let m = choose|m: int| 0 <= m < t.len() && t[m].0 == x;
                    assert(t[m] == l[m + 1]);
                    assert(l[m + 1].0 == x);
                }
            } else {
                assert(l[0].0 == x);
            }
        }
    }
}

} // verus!
