//! Character-level text handling shared by the parsers: Unicode whitespace
//! trimming, line and field splitting, integer parsing and number formatting.

use vstd::prelude::*;
use vstd::std_specs::iter::IteratorSpec;

verus! {

broadcast use vstd::string::group_string_axioms;

/// `String::push`: appends one character to the string.
#[verifier::external_body]
pub(crate) fn push_char(s: &mut String, c: char)
    ensures
        final(s)@ == old(s)@.push(c),
{
    s.push(c);
}

/// The characters of `s`, in order.
pub fn chars_of(s: &str) -> (v: Vec<char>)
    ensures
        v@ == s@,
{
    let mut it = s.chars();
    let mut v: Vec<char> = Vec::new();
    loop
        invariant
            v@ + IteratorSpec::remaining(&it) == s@,
            IteratorSpec::decrease(&it) is Some,
        ensures
            v@ == s@,
        decreases IteratorSpec::decrease(&it)->0,
    {
        let ghost before = IteratorSpec::remaining(&it);
        match it.next() {
            Some(c) => {
                v.push(c);
                assert(v@ + IteratorSpec::remaining(&it) =~= s@) by {
                    assert(before =~= seq![c] + IteratorSpec::remaining(&it));
                }
            },
            None => {
                assert(v@ =~= s@);
                break ;
            },
        }
    }
    v
}

/// Append the characters `cs`.
pub fn push_chars(s: &mut String, cs: &[char])
    ensures
        final(s)@ == old(s)@ + cs@,
{
    let ghost start = s@;
    let mut i: usize = 0;
    while i < cs.len()
        invariant
            i <= cs@.len(),
            s@ == start + cs@.take(i as int),
        decreases cs@.len() - i,
    {
        push_char(s, cs[i]);
        i = i + 1;
        assert(s@ =~= start + cs@.take(i as int));
    }
    assert(cs@.take(i as int) =~= cs@);
}

/// Append the text `t`.
pub fn push_text(s: &mut String, t: &str)
    ensures
        final(s)@ == old(s)@ + t@,
{
    let cs = chars_of(t);
    push_chars(s, cs.as_slice());
}

/// A string holding the characters `cs`.
pub fn string_of(cs: &[char]) -> (s: String)
    ensures
        s@ == cs@,
{
    let mut s = String::new();
    let mut i: usize = 0;
    while i < cs.len()
        invariant
            i <= cs@.len(),
            s@ == cs@.take(i as int),
        decreases cs@.len() - i,
    {
        push_char(&mut s, cs[i]);
        i = i + 1;
        assert(s@ =~= cs@.take(i as int));
    }
    assert(cs@.take(i as int) =~= cs@);
    s
}

/// Whether `a` and `b` hold the same characters.
pub fn chars_eq(a: &[char], b: &[char]) -> (r: bool)
    ensures
        r == (a@ == b@),
{
    if a.len() != b.len() {
        return false;
    }
    let mut i: usize = 0;
    while i < a.len()
        invariant
            i <= a@.len(),
            a@.len() == b@.len(),
            a@.take(i as int) == b@.take(i as int),
        decreases a@.len() - i,
    {
        if a[i] != b[i] {
            assert(a@[i as int] != b@[i as int]);
            return false;
        }
        i = i + 1;
        assert(a@.take(i as int) =~= b@.take(i as int)) by {
            assert(a@.take(i as int) =~= a@.take(i - 1).push(a@[i - 1]));
            assert(b@.take(i as int) =~= b@.take(i - 1).push(b@[i - 1]));
        }
    }
    assert(a@ =~= a@.take(i as int));
    assert(b@ =~= b@.take(i as int));
    true
}

/// Whether the characters `a` spell the text `lit`.
pub fn chars_are(a: &[char], lit: &str) -> (r: bool)
    ensures
        r == (a@ == lit@),
{
    let l = chars_of(lit);
    chars_eq(a, l.as_slice())
}

/// A copy of `cs`.
pub fn copy_chars(cs: &[char]) -> (v: Vec<char>)
    ensures
        v@ == cs@,
{
    let mut v: Vec<char> = Vec::new();
    let mut i: usize = 0;
    while i < cs.len()
        invariant
            i <= cs@.len(),
            v@ == cs@.take(i as int),
        decreases cs@.len() - i,
    {
        v.push(cs[i]);
        i = i + 1;
        assert(v@ =~= cs@.take(i as int));
    }
    assert(cs@.take(i as int) =~= cs@);
    v
}

/// The characters of `cs` from `start` up to `end`.
pub fn sub_chars(cs: &[char], start: usize, end: usize) -> (v: Vec<char>)
    requires
        start <= end <= cs@.len(),
    ensures
        v@ == cs@.subrange(start as int, end as int),
{
    let mut v: Vec<char> = Vec::new();
    let mut i: usize = start;
    while i < end
        invariant
            start <= i <= end,
            end <= cs@.len(),
            v@ == cs@.subrange(start as int, i as int),
        decreases end - i,
    {
        v.push(cs[i]);
        i = i + 1;
        assert(v@ =~= cs@.subrange(start as int, i as int));
    }
    v
}

/// `char::is_whitespace`: the characters with the Unicode `White_Space`
/// property.
pub open spec fn is_ws(c: char) -> bool {
    let n = c as u32;
    (9 <= n <= 13) || n == 32 || n == 0x85 || n == 0xa0 || n == 0x1680 || (0x2000 <= n <= 0x200a)
        || n == 0x2028 || n == 0x2029 || n == 0x202f || n == 0x205f || n == 0x3000
}

/// Whether `c` has the Unicode `White_Space` property.
pub fn is_whitespace(c: char) -> (r: bool)
    ensures
        r == is_ws(c),
{
    let n = c as u32;
    (9 <= n && n <= 13) || n == 32 || n == 0x85 || n == 0xa0 || n == 0x1680 || (0x2000 <= n && n
        <= 0x200a) || n == 0x2028 || n == 0x2029 || n == 0x202f || n == 0x205f || n == 0x3000
}

/// `s` without its leading whitespace.
pub open spec fn trim_start(s: Seq<char>) -> Seq<char>
    decreases s.len(),
{
    if s.len() > 0 && is_ws(s[0]) {
        trim_start(s.drop_first())
    } else {
        s
    }
}

/// `s` without its trailing whitespace.
pub open spec fn trim_end(s: Seq<char>) -> Seq<char>
    decreases s.len(),
{
    if s.len() > 0 && is_ws(s.last()) {
        trim_end(s.drop_last())
    } else {
        s
    }
}

/// `str::trim`: `s` without leading and trailing whitespace.
pub open spec fn trim(s: Seq<char>) -> Seq<char> {
    trim_end(trim_start(s))
}

/// The bounds of `trim(cs@)` within `cs`.
pub fn trim_bounds(cs: &[char]) -> (r: (usize, usize))
    ensures
        r.0 <= r.1 <= cs@.len(),
        cs@.subrange(r.0 as int, r.1 as int) == trim(cs@),
{
    let n = cs.len();
    let mut i: usize = 0;
    assert(cs@.subrange(0, n as int) =~= cs@);
    while i < n && is_whitespace(cs[i])
        invariant
            i <= n == cs@.len(),
            trim_start(cs@) == trim_start(cs@.subrange(i as int, n as int)),
        decreases n - i,
    {
        assert(cs@.subrange(i as int, n as int).drop_first() =~= cs@.subrange(
            i + 1,
            n as int,
        ));
        i = i + 1;
    }
    assert(trim_start(cs@) == cs@.subrange(i as int, n as int));
    let mut j: usize = n;
    while j > i && is_whitespace(cs[j - 1])
        invariant
            i <= j <= n == cs@.len(),
            trim_end(cs@.subrange(i as int, n as int)) == trim_end(
                cs@.subrange(i as int, j as int),
            ),
        decreases j - i,
    {
        assert(cs@.subrange(i as int, j as int).drop_last() =~= cs@.subrange(
            i as int,
            j - 1,
        ));
        j = j - 1;
    }
    (i, j)
}

/// `cs` without leading and trailing whitespace.
pub fn trim_chars(cs: &[char]) -> (v: Vec<char>)
    ensures
        v@ == trim(cs@),
{
    let (a, b) = trim_bounds(cs);
    sub_chars(cs, a, b)
}

/// Trimming twice trims nothing more.
pub proof fn lemma_trim_idempotent(s: Seq<char>)
    ensures
        trim(trim(s)) == trim(s),
{
    lemma_trim_start_result(s);
    let t = trim_start(s);
    lemma_trim_end_keeps_start(t);
    lemma_trim_end_result(t);
    let u = trim_end(t);
    assert(trim_start(u) == u);
    lemma_trim_end_result(u);
}

proof fn lemma_trim_start_result(s: Seq<char>)
    ensures
        trim_start(s).len() == 0 || !is_ws(trim_start(s)[0]),
    decreases s.len(),
{
    if s.len() > 0 && is_ws(s[0]) {
        lemma_trim_start_result(s.drop_first());
    }
}

proof fn lemma_trim_end_result(s: Seq<char>)
    ensures
        trim_end(s).len() == 0 || !is_ws(trim_end(s).last()),
        trim_end(trim_end(s)) == trim_end(s),
    decreases s.len(),
{
    if s.len() > 0 && is_ws(s.last()) {
        lemma_trim_end_result(s.drop_last());
    }
}

proof fn lemma_trim_end_keeps_start(s: Seq<char>)
    requires
        s.len() == 0 || !is_ws(s[0]),
    ensures
        trim_end(s).len() <= s.len(),
        trim_end(s).len() == 0 || trim_end(s)[0] == s[0],
        trim_end(s) =~= s.take(trim_end(s).len() as int),
    decreases s.len(),
{
    if s.len() > 0 && is_ws(s.last()) {
        lemma_trim_end_keeps_start(s.drop_last());
        let k = trim_end(s).len() as int;
        assert(s.drop_last().take(k) =~= s.take(k));
    } else {
        assert(s.take(s.len() as int) =~= s);
    }
}

/// `str::split` on one character: the pieces between occurrences of `sep`.
pub open spec fn split_on(s: Seq<char>, sep: char) -> Seq<Seq<char>>
    decreases s.len(),
{
    if s.len() == 0 {
        seq![Seq::empty()]
    } else if s.last() == sep {
        split_on(s.drop_last(), sep).push(Seq::empty())
    } else {
        let r = split_on(s.drop_last(), sep);
        r.update(r.len() - 1, r.last().push(s.last()))
    }
}

/// Text without the separator is one piece.
pub proof fn lemma_split_without_separator(s: Seq<char>, sep: char)
    requires
        !s.contains(sep),
    ensures
        split_on(s, sep) == seq![s],
    decreases s.len(),
{
    if s.len() > 0 {
        let p = s.drop_last();
        assert(!p.contains(sep)) by {
            if p.contains(sep) {
                let i = choose|i: int| 0 <= i < p.len() && p[i] == sep;
                assert(s[i] == sep);
            }
        }
        lemma_split_without_separator(p, sep);
        assert(s.last() != sep) by {
            if s.last() == sep {
                assert(s[s.len() - 1] == sep);
            }
        }
        assert(p.push(s.last()) =~= s);
    } else {
        assert(s =~= Seq::<char>::empty());
    }
}

/// There is always at least one piece.
pub proof fn lemma_split_nonempty(s: Seq<char>, sep: char)
    ensures
        split_on(s, sep).len() >= 1,
    decreases s.len(),
{
    if s.len() > 0 {
        lemma_split_nonempty(s.drop_last(), sep);
    }
}

/// The summed length of `ps`.
pub open spec fn total_len(ps: Seq<Seq<char>>) -> nat
    decreases ps.len(),
{
    if ps.len() == 0 {
        0
    } else {
        total_len(ps.drop_last()) + ps.last().len()
    }
}

proof fn lemma_total_first_two(ps: Seq<Seq<char>>)
    requires
        ps.len() >= 2,
    ensures
        total_len(ps) >= ps[0].len() + ps[1].len(),
    decreases ps.len(),
{
    let d = ps.drop_last();
    assert(total_len(ps) == total_len(d) + ps.last().len());
    if ps.len() == 2 {
        assert(d.drop_last().len() == 0);
        assert(total_len(d) == total_len(d.drop_last()) + d.last().len());
        assert(d.last() == ps[0]);
    } else {
        lemma_total_first_two(d);
        assert(d[0] == ps[0] && d[1] == ps[1]);
    }
}

/// The pieces and the separators between them make up the whole text.
pub proof fn lemma_split_lengths(s: Seq<char>, sep: char)
    ensures
        split_on(s, sep).len() >= 1,
        total_len(split_on(s, sep)) + split_on(s, sep).len() - 1 == s.len(),
        split_on(s, sep).len() >= 2 ==> split_on(s, sep)[0].len() + split_on(s, sep)[1].len()
            + split_on(s, sep).len() - 1 <= s.len(),
    decreases s.len(),
{
    if s.len() > 0 {
        lemma_split_lengths(s.drop_last(), sep);
        let p = split_on(s.drop_last(), sep);
        let q = split_on(s, sep);
        assert(total_len(q) == total_len(q.drop_last()) + q.last().len());
        if s.last() == sep {
            assert(q.drop_last() =~= p);
            assert(q.last().len() == 0);
        } else {
            assert(q.drop_last() =~= p.drop_last());
            assert(q.last() == p.last().push(s.last()));
            assert(total_len(p) == total_len(p.drop_last()) + p.last().len());
        }
        if q.len() >= 2 {
            lemma_total_first_two(q);
        }
    } else {
        let q = split_on(s, sep);
        assert(q =~= seq![Seq::<char>::empty()]);
        assert(q.drop_last().len() == 0);
        assert(total_len(q.drop_last()) == 0);
        assert(total_len(q) == total_len(q.drop_last()) + q.last().len());
    }
}

/// The views of a sequence of character vectors.
pub open spec fn views(v: Seq<Vec<char>>) -> Seq<Seq<char>> {
    v.map_values(|x: Vec<char>| x@)
}

/// The pieces of `cs` between occurrences of `sep`.
pub fn split_chars(cs: &[char], sep: char) -> (r: Vec<Vec<char>>)
    ensures
        views(r@) == split_on(cs@, sep),
{
    let mut pieces: Vec<Vec<char>> = Vec::new();
    let mut cur: Vec<char> = Vec::new();
    let mut i: usize = 0;
    assert(cs@.take(0) =~= Seq::<char>::empty());
    assert(views(pieces@).push(cur@) =~= split_on(cs@.take(0), sep));
    while i < cs.len()
        invariant
            i <= cs@.len(),
            split_on(cs@.take(i as int), sep) == views(pieces@).push(cur@),
        decreases cs@.len() - i,
    {
        let c = cs[i];
        assert(cs@.take(i + 1).drop_last() =~= cs@.take(i as int));
        if c == sep {
            pieces.push(cur);
            cur = Vec::new();
        } else {
            cur.push(c);
        }
        i = i + 1;
        assert(split_on(cs@.take(i as int), sep) =~= views(pieces@).push(cur@));
    }
    assert(cs@.take(i as int) =~= cs@);
    pieces.push(cur);
    assert(views(pieces@) =~= split_on(cs@, sep));
    pieces
}

/// A line without the carriage return that ended it.
pub open spec fn strip_cr(l: Seq<char>) -> Seq<char> {
    if l.len() > 0 && l.last() == '\r' {
        l.drop_last()
    } else {
        l
    }
}

/// `str::lines`: the lines of `s`, each without its `\n` or `\r\n` ending,
/// the last one only when it is not empty.
pub open spec fn lines(s: Seq<char>) -> Seq<Seq<char>> {
    let p = split_on(s, '\n');
    let ended = p.drop_last().map_values(|l: Seq<char>| strip_cr(l));
    if p.last().len() == 0 {
        ended
    } else {
        ended.push(p.last())
    }
}

/// The lines of `cs`.
pub fn lines_of(cs: &[char]) -> (r: Vec<Vec<char>>)
    ensures
        views(r@) == lines(cs@),
{
    let mut done: Vec<Vec<char>> = Vec::new();
    let mut cur: Vec<char> = Vec::new();
    let mut i: usize = 0;
    assert(cs@.take(0) =~= Seq::<char>::empty());
    assert(split_on(cs@.take(0), '\n') =~= seq![Seq::<char>::empty()]);
    assert(views(done@) =~= split_on(cs@.take(0), '\n').drop_last().map_values(
        |l: Seq<char>| strip_cr(l),
    ));
    while i < cs.len()
        invariant
            i <= cs@.len(),
            split_on(cs@.take(i as int), '\n').len() >= 1,
            views(done@) == split_on(cs@.take(i as int), '\n').drop_last().map_values(
                |l: Seq<char>| strip_cr(l),
            ),
            cur@ == split_on(cs@.take(i as int), '\n').last(),
        decreases cs@.len() - i,
    {
        let c = cs[i];
        let ghost prev = split_on(cs@.take(i as int), '\n');
        assert(cs@.take(i + 1).drop_last() =~= cs@.take(i as int));
        if c == '\n' {
            let n = cur.len();
            if n > 0 && cur[n - 1] == '\r' {
                cur.pop();
            }
            assert(cur@ == strip_cr(prev.last()));
            done.push(cur);
            cur = Vec::new();
            i = i + 1;
            let ghost next = split_on(cs@.take(i as int), '\n');
            assert(next == prev.push(Seq::<char>::empty()));
            assert(next.drop_last() =~= prev);
            assert(prev.map_values(|l: Seq<char>| strip_cr(l)) =~= prev.drop_last().map_values(
                |l: Seq<char>| strip_cr(l),
            ).push(strip_cr(prev.last())));
            assert(views(done@) =~= next.drop_last().map_values(|l: Seq<char>| strip_cr(l)));
        } else {
            cur.push(c);
            i = i + 1;
            let ghost next = split_on(cs@.take(i as int), '\n');
            assert(next == prev.update(prev.len() - 1, prev.last().push(c)));
            assert(next.drop_last() =~= prev.drop_last());
        }
    }
    assert(cs@.take(i as int) =~= cs@);
    if cur.len() > 0 {
        done.push(cur);
        assert(views(done@) =~= lines(cs@));
    }
    done
}


/// The ASCII lower-case form of `c`.
pub open spec fn ascii_lower(c: char) -> char {
    if 65 <= (c as u32) <= 90 {
        ((c as u32) + 32) as char
    } else {
        c
    }
}

/// `str::to_ascii_lowercase`.
pub fn to_ascii_lowercase(cs: &[char]) -> (v: Vec<char>)
    ensures
        v@ == cs@.map_values(|c: char| ascii_lower(c)),
{
    let mut v: Vec<char> = Vec::new();
    let mut i: usize = 0;
    while i < cs.len()
        invariant
            i <= cs@.len(),
            v@ == cs@.take(i as int).map_values(|c: char| ascii_lower(c)),
        decreases cs@.len() - i,
    {
        let c = cs[i];
        let n = c as u32;
        let l = if 65 <= n && n <= 90 {
            ((n + 32) as u8) as char
        } else {
            c
        };
        v.push(l);
        i = i + 1;
        assert(v@ =~= cs@.take(i as int).map_values(|c: char| ascii_lower(c)));
    }
    assert(cs@.take(i as int) =~= cs@);
    v
}

/// The value of a digit or letter in bases up to 36; 99 for anything else.
pub open spec fn char_digit(c: char) -> nat {
    let n = c as u32;
    if 48 <= n <= 57 {
        (n - 48) as nat
    } else if 97 <= n <= 122 {
        (n - 87) as nat
    } else if 65 <= n <= 90 {
        (n - 55) as nat
    } else {
        99
    }
}

/// Every character of `s` is a digit in base `radix`.
pub open spec fn all_digits(s: Seq<char>, radix: nat) -> bool {
    forall|i: int| 0 <= i < s.len() ==> char_digit(#[trigger] s[i]) < radix
}

/// The number that the digits `s` write in base `radix`.
pub open spec fn digits_value(s: Seq<char>, radix: nat) -> nat
    decreases s.len(),
{
    if s.len() == 0 {
        0
    } else {
        digits_value(s.drop_last(), radix) * radix + char_digit(s.last())
    }
}

/// `from_str_radix` of an integer type whose values are `min..=max`: an
/// optional `+` (or `-` when the type is signed) and at least one digit,
/// whose value must lie in the range.
pub open spec fn int_value(s: Seq<char>, radix: nat, signed: bool, min: int, max: int) -> Option<
    int,
> {
    if s.len() == 0 {
        None
    } else {
        let neg = signed && s[0] == '-';
        let digits = if s[0] == '+' || neg {
            s.drop_first()
        } else {
            s
        };
        if digits.len() == 0 || !all_digits(digits, radix) {
            None
        } else {
            let v: int = if neg {
                -digits_value(digits, radix)
            } else {
                digits_value(digits, radix) as int
            };
            if min <= v <= max {
                Some(v)
            } else {
                None
            }
        }
    }
}

fn digit_of(c: char) -> (d: u32)
    ensures
        d == char_digit(c),
{
    let n = c as u32;
    if 48 <= n && n <= 57 {
        n - 48
    } else if 97 <= n && n <= 122 {
        n - 87
    } else if 65 <= n && n <= 90 {
        n - 55
    } else {
        99
    }
}

/// Values at or above this bound are beyond every integer type parsed here.
pub const VALUE_CAP: i128 = 0x4_0000_0000_0000_0000;

proof fn lemma_capped_step(v: nat, radix: nat, d: nat)
    requires
        2 <= radix <= 36,
        d < radix,
    ensures
        (if v < VALUE_CAP {
            v
        } else {
            VALUE_CAP as nat
        }) * radix + d < VALUE_CAP ==> v < VALUE_CAP && v * radix + d < VALUE_CAP,
        v >= VALUE_CAP ==> v * radix + d >= VALUE_CAP,
{
    if v >= VALUE_CAP {
        assert(v * radix + d >= VALUE_CAP) by (nonlinear_arith)
            requires
                v >= VALUE_CAP,
                radix >= 2,
        ;
        assert((VALUE_CAP as nat) * radix + d >= VALUE_CAP) by (nonlinear_arith)
            requires
                radix >= 2,
        ;
    }
}

/// Parse `s` as `from_str_radix` does for an integer type whose values are
/// `min..=max`.
pub fn parse_int(s: &[char], radix: u32, signed: bool, min: i128, max: i128) -> (r: Option<i128>)
    requires
        2 <= radix <= 36,
        -VALUE_CAP < min,
        max < VALUE_CAP,
    ensures
        match int_value(s@, radix as nat, signed, min as int, max as int) {
            Some(v) => r == Some(v as i128),
            None => r is None,
        },
{
    if s.len() == 0 {
        return None;
    }
    let neg = signed && s[0] == '-';
    let start: usize = if s[0] == '+' || neg {
        1
    } else {
        0
    };
    let ghost digits = if s@[0] == '+' || neg {
        s@.drop_first()
    } else {
        s@
    };
    assert(digits =~= s@.subrange(start as int, s@.len() as int));
    if start == s.len() {
        return None;
    }
    let mut acc: i128 = 0;
    let mut i: usize = start;
    assert(s@.subrange(start as int, start as int) =~= Seq::<char>::empty());
    while i < s.len()
        invariant
            start <= i <= s@.len(),
            2 <= radix <= 36,
            s@.len() > 0,
            neg == (signed && s@[0] == '-'),
            digits == (if s@[0] == '+' || neg {
                s@.drop_first()
            } else {
                s@
            }),
            digits == s@.subrange(start as int, s@.len() as int),
            all_digits(s@.subrange(start as int, i as int), radix as nat),
            acc == (if digits_value(s@.subrange(start as int, i as int), radix as nat) < VALUE_CAP {
                digits_value(s@.subrange(start as int, i as int), radix as nat) as int
            } else {
                VALUE_CAP as int
            }),
        decreases s@.len() - i,
    {
        let d = digit_of(s[i]);
        if d >= radix {
            assert(s@.subrange(start as int, s@.len() as int)[i - start] == s@[i as int]);
            return None;
        }
        let ghost prefix = s@.subrange(start as int, i as int);
        let ghost next_prefix = s@.subrange(start as int, i + 1);
        assert(next_prefix.drop_last() =~= prefix);
        proof {
            lemma_capped_step(digits_value(prefix, radix as nat), radix as nat, d as nat);
        }
        assert(acc * (radix as i128) + (d as i128) <= VALUE_CAP * 36 + 35) by (nonlinear_arith)
            requires
                0 <= acc <= VALUE_CAP,
                2 <= radix <= 36,
                d < 36,
        ;
        assert(acc * (radix as i128) >= 0) by (nonlinear_arith)
            requires
                0 <= acc,
                2 <= radix,
        ;
        let next = acc * (radix as i128) + (d as i128);
        acc = if next >= VALUE_CAP {
            VALUE_CAP
        } else {
            next
        };
        i = i + 1;
        assert(all_digits(next_prefix, radix as nat)) by {
            assert forall|k: int| 0 <= k < next_prefix.len() implies char_digit(
                #[trigger] next_prefix[k],
            ) < radix as nat by {
                if k < next_prefix.len() - 1 {
                    assert(next_prefix[k] == prefix[k]);
                }
            }
        }
    }
    assert(s@.subrange(start as int, i as int) =~= digits);
    let v = if neg {
        -acc
    } else {
        acc
    };
    if min <= v && v <= max {
        Some(v)
    } else {
        None
    }
}

/// `i32::from_str`.
pub fn parse_i32(s: &[char]) -> (r: Option<i32>)
    ensures
        match int_value(s@, 10, true, i32::MIN as int, i32::MAX as int) {
            Some(v) => r == Some(v as i32),
            None => r is None,
        },
{
    match parse_int(s, 10, true, i32::MIN as i128, i32::MAX as i128) {
        Some(v) => Some(v as i32),
        None => None,
    }
}

/// `u8::from_str`.
pub fn parse_u8(s: &[char]) -> (r: Option<u8>)
    ensures
        match int_value(s@, 10, false, 0, 255) {
            Some(v) => r == Some(v as u8),
            None => r is None,
        },
{
    match parse_int(s, 10, false, 0, 255) {
        Some(v) => Some(v as u8),
        None => None,
    }
}

/// The digit character for `d`: `0`-`9`, then lower-case letters.
pub open spec fn digit_char(d: nat) -> char {
    if d < 10 {
        (48 + d) as char
    } else {
        (87 + d) as char
    }
}

/// The decimal digits of `n`.
pub open spec fn decimal(n: nat) -> Seq<char>
    decreases n,
{
    if n < 10 {
        seq![digit_char(n)]
    } else {
        decimal(n / 10).push(digit_char(n % 10))
    }
}

/// The decimal form of a signed number.
pub open spec fn signed_decimal(n: int) -> Seq<char> {
    if n < 0 {
        seq!['-'] + decimal((-n) as nat)
    } else {
        decimal(n as nat)
    }
}

/// The lower-case hexadecimal digits of `n`.
pub open spec fn hex(n: nat) -> Seq<char>
    decreases n,
{
    if n < 16 {
        seq![digit_char(n)]
    } else {
        hex(n / 16).push(digit_char(n % 16))
    }
}

/// `s` left-padded with `0` to at least `width` characters.
pub open spec fn zero_padded(s: Seq<char>, width: nat) -> Seq<char> {
    if s.len() < width {
        Seq::new((width - s.len()) as nat, |i: int| '0') + s
    } else {
        s
    }
}

fn digit_char_of(d: u64) -> (c: char)
    requires
        d < 16,
    ensures
        c == digit_char(d as nat),
{
    if d < 10 {
        ((48 + d) as u8) as char
    } else {
        ((87 + d) as u8) as char
    }
}

/// Append the decimal digits of `n`.
pub fn push_decimal(s: &mut String, n: u64)
    ensures
        final(s)@ == old(s)@ + decimal(n as nat),
    decreases n,
{
    if n >= 10 {
        push_decimal(s, n / 10);
    }
    push_char(s, digit_char_of(n % 10));
    assert(final(s)@ =~= old(s)@ + decimal(n as nat));
}

/// Append the decimal form of a signed number.
pub fn push_signed_decimal(s: &mut String, n: i64)
    ensures
        final(s)@ == old(s)@ + signed_decimal(n as int),
{
    if n < 0 {
        push_char(s, '-');
        let m: u64 = (0i128 - (n as i128)) as u64;
        push_decimal(s, m);
        assert(final(s)@ =~= old(s)@ + signed_decimal(n as int));
    } else {
        push_decimal(s, n as u64);
    }
}

/// Append the lower-case hexadecimal digits of `n`.
pub fn push_hex(s: &mut String, n: u64)
    ensures
        final(s)@ == old(s)@ + hex(n as nat),
    decreases n,
{
    if n >= 16 {
        push_hex(s, n / 16);
    }
    push_char(s, digit_char_of(n % 16));
    assert(final(s)@ =~= old(s)@ + hex(n as nat));
}

/// Sixteen to the power `k`.
pub open spec fn p16(k: nat) -> nat
    decreases k,
{
    if k == 0 {
        1
    } else {
        16 * p16((k - 1) as nat)
    }
}

proof fn lemma_hex_len_bound(n: nat, k: nat)
    requires
        k >= 1,
        n < p16(k),
    ensures
        hex(n).len() <= k,
    decreases k,
{
    if n >= 16 {
        assert(k >= 2) by {
            if k == 1 {
                assert(p16(1) == 16) by {
                    reveal_with_fuel(p16, 2);
                }
            }
        }
        assert(n / 16 < p16((k - 1) as nat));
        lemma_hex_len_bound(n / 16, (k - 1) as nat);
    }
}

fn hex_len(n: u64) -> (l: usize)
    ensures
        l == hex(n as nat).len(),
    decreases n,
{
    proof {
        assert(p16(16) == 0x1_0000_0000_0000_0000) by {
            reveal_with_fuel(p16, 17);
        }
        lemma_hex_len_bound(n as nat, 16);
    }
    if n < 16 {
        1
    } else {
        let k = hex_len(n / 16);
        k + 1
    }
}

/// Append `n` in lower-case hexadecimal, zero-padded to `width` digits.
pub fn push_hex_padded(s: &mut String, n: u64, width: usize)
    ensures
        final(s)@ == old(s)@ + zero_padded(hex(n as nat), width as nat),
{
    let l = hex_len(n);
    let ghost start = s@;
    if l < width {
        let mut k: usize = 0;
        while k < width - l
            invariant
                k <= width - l,
                s@ == start + Seq::new(k as nat, |i: int| '0'),
            decreases width - l - k,
        {
            push_char(s, '0');
            k = k + 1;
            assert(s@ =~= start + Seq::new(k as nat, |i: int| '0'));
        }
    }
    push_hex(s, n);
    assert(s@ =~= start + zero_padded(hex(n as nat), width as nat));
}

/// The text before and after the first `sep` in `cs`, if there is one.
pub open spec fn split_once(s: Seq<char>, sep: char) -> Option<(Seq<char>, Seq<char>)> {
    if exists|i: int| 0 <= i < s.len() && s[i] == sep {
        let i = choose|i: int|
            0 <= i < s.len() && s[i] == sep && forall|j: int| 0 <= j < i ==> s[j] != sep;
        Some((s.take(i), s.skip(i + 1)))
    } else {
        None
    }
}

/// The position of the first `sep` in `cs`, if there is one.
pub fn find_char(cs: &[char], sep: char) -> (r: Option<usize>)
    ensures
        match r {
            Some(i) => i < cs@.len() && cs@[i as int] == sep && forall|j: int|
                0 <= j < i ==> cs@[j] != sep,
            None => forall|j: int| 0 <= j < cs@.len() ==> cs@[j] != sep,
        },
{
    let mut i: usize = 0;
    while i < cs.len()
        invariant
            i <= cs@.len(),
            forall|j: int| 0 <= j < i ==> cs@[j] != sep,
        decreases cs@.len() - i,
    {
        if cs[i] == sep {
            return Some(i);
        }
        i = i + 1;
    }
    None
}

/// `str::split_once` on one character.
pub fn split_once_chars(cs: &[char], sep: char) -> (r: Option<(Vec<char>, Vec<char>)>)
    ensures
        match split_once(cs@, sep) {
            Some((a, b)) => r matches Some((x, y)) && x@ == a && y@ == b,
            None => r is None,
        },
{
    match find_char(cs, sep) {
        Some(i) => {
            let ghost k = choose|k: int|
                0 <= k < cs@.len() && cs@[k] == sep && forall|j: int| 0 <= j < k ==> cs@[j] != sep;
            assert(0 <= i < cs@.len() && cs@[i as int] == sep && forall|j: int|
                0 <= j < i ==> cs@[j] != sep);
            assert(k == i) by {
                if k < i {
                    assert(cs@[k] != sep);
                } else if k > i {
                    assert(cs@[i as int] != sep);
                }
            }
            let a = sub_chars(cs, 0, i);
            let n = cs.len();
            let b = sub_chars(cs, i + 1, n);
            assert(a@ =~= cs@.take(i as int));
            assert(b@ =~= cs@.skip(i + 1));
            Some((a, b))
        },
        None => None,
    }
}


/// `cs` without the leading `prefix`, if it starts with it.
pub open spec fn strip_prefix(cs: Seq<char>, prefix: Seq<char>) -> Option<Seq<char>> {
    if cs.len() >= prefix.len() && cs.take(prefix.len() as int) == prefix {
        Some(cs.skip(prefix.len() as int))
    } else {
        None
    }
}

/// `str::strip_prefix` with a text prefix.
pub fn strip_prefix_chars(cs: &[char], prefix: &str) -> (r: Option<Vec<char>>)
    ensures
        match strip_prefix(cs@, prefix@) {
            Some(rest) => r matches Some(v) && v@ == rest,
            None => r is None,
        },
{
    let p = chars_of(prefix);
    let n = p.len();
    if cs.len() < n {
        return None;
    }
    let head = sub_chars(cs, 0, n);
    assert(head@ =~= cs@.take(n as int));
    if !chars_eq(head.as_slice(), p.as_slice()) {
        return None;
    }
    let m = cs.len();
    let rest = sub_chars(cs, n, m);
    assert(rest@ =~= cs@.skip(n as int));
    Some(rest)
}

/// The text `format!("{:?}", s)` gives for a string: quoted, with
/// characters escaped as `str`'s `Debug` escapes them.
pub uninterp spec fn debug_quoted(s: Seq<char>) -> Seq<char>;

/// Append `format!("{:?}", t)`, the quoted and escaped form of `t`, by
/// `str`'s `Debug` implementation.
#[verifier::external_body]
pub(crate) fn push_debug_quoted(s: &mut String, t: &str)
    ensures
        final(s)@ == old(s)@ + debug_quoted(t@),
{
    s.push_str(&format!("{t:?}"));
}
/// The decimal digits of a number read back as that number.
pub proof fn lemma_decimal_digits(n: nat)
    ensures
        decimal(n).len() > 0,
        all_digits(decimal(n), 10),
        digits_value(decimal(n), 10) == n,
        char_digit(decimal(n)[0]) < 10,
    decreases n,
{
    if n < 10 {
        assert(char_digit(digit_char(n)) == n);
        assert(decimal(n) == seq![digit_char(n)]);
        assert(decimal(n).drop_last() =~= Seq::<char>::empty());
        assert(digits_value(decimal(n), 10) == digits_value(decimal(n).drop_last(), 10) * 10
            + char_digit(decimal(n).last()));
    } else {
        lemma_decimal_digits(n / 10);
        let d = decimal(n / 10);
        assert(char_digit(digit_char(n % 10)) == n % 10);
        assert(decimal(n).drop_last() =~= d);
        assert(decimal(n).last() == digit_char(n % 10));
        assert(digits_value(decimal(n), 10) == digits_value(d, 10) * 10 + char_digit(
            decimal(n).last(),
        ));
        assert((n / 10) * 10 + n % 10 == n);
        assert(decimal(n)[0] == d[0]);
        assert forall|i: int| 0 <= i < decimal(n).len() implies char_digit(#[trigger] decimal(n)[i]) < 10 by {
            if i < d.len() {
                assert(decimal(n)[i] == d[i]);
            }
        }
    }
}

/// Reading the decimal form of a number that lies in `min..=max` as a
/// signed number gives the number back.
pub proof fn lemma_signed_decimal_value(n: int, min: int, max: int)
    requires
        min <= n <= max,
    ensures
        int_value(signed_decimal(n), 10, true, min, max) == Some(n),
{
    if n < 0 {
        let m = (-n) as nat;
        lemma_decimal_digits(m);
        let s = signed_decimal(n);
        assert(s[0] == '-');
        assert(s.drop_first() =~= decimal(m));
    } else {
        lemma_decimal_digits(n as nat);
        let s = decimal(n as nat);
        assert(char_digit(s[0]) < 10);
        assert(s[0] != '+' && s[0] != '-');
    }
}

} // verus!
