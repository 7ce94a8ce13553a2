//! Character-level string operations used by the site builder, each with a
//! mathematical model over `Seq<char>`.
use vstd::prelude::*;

verus! {

// ----------------------------------------------------------------------
// Models
// ----------------------------------------------------------------------

/// Index of the last occurrence of `c` in `s`, or -1 when `c` does not occur.
pub open spec fn last_index(s: Seq<char>, c: char) -> int
    decreases s.len(),
{
    if s.len() == 0 {
        -1
    } else if s.last() == c {
        s.len() - 1
    } else {
        last_index(s.drop_last(), c)
    }
}

/// `k` is the position of the first occurrence of `c` in `s`
/// (or -1 when `c` does not occur).
pub open spec fn is_first_index(s: Seq<char>, c: char, k: int) -> bool {
    if k == -1 {
        forall|j: int| 0 <= j < s.len() ==> s[j] != c
    } else {
        &&& 0 <= k < s.len()
        &&& s[k] == c
        &&& forall|j: int| 0 <= j < k ==> s[j] != c
    }
}

/// Index of the first occurrence of `c` in `s`, or -1 when `c` does not occur.
pub open spec fn first_index(s: Seq<char>, c: char) -> int
    decreases s.len(),
{
    if s.len() == 0 {
        -1
    } else if s[0] == c {
        0
    } else {
        let k = first_index(s.drop_first(), c);
        if k < 0 {
            -1
        } else {
            k + 1
        }
    }
}

/// The pieces of `s` between the occurrences of `c` (the model of
/// `str::split` with a character separator): one more piece than there are
/// separators, empty pieces included.
pub open spec fn split_spec(s: Seq<char>, c: char) -> Seq<Seq<char>>
    decreases s.len(),
{
    if s.len() == 0 {
        seq![Seq::<char>::empty()]
    } else {
        let prev = split_spec(s.drop_last(), c);
        if s.last() == c {
            prev.push(Seq::<char>::empty())
        } else {
            prev.update(prev.len() - 1, prev.last().push(s.last()))
        }
    }
}

/// The pieces joined with `c` between consecutive pieces.
pub open spec fn join_spec(parts: Seq<Seq<char>>, c: char) -> Seq<char>
    decreases parts.len(),
{
    if parts.len() == 0 {
        Seq::<char>::empty()
    } else if parts.len() == 1 {
        parts[0]
    } else {
        join_spec(parts.drop_last(), c).push(c) + parts.last()
    }
}

/// `s` with every non-overlapping occurrence of `from`, scanned left to
/// right, replaced by `to` (the model of `str::replace` for a non-empty
/// pattern).
pub open spec fn replace_spec(s: Seq<char>, from: Seq<char>, to: Seq<char>) -> Seq<char>
    decreases s.len(),
{
    if from.len() == 0 || s.len() < from.len() {
        s
    } else if s.take(from.len() as int) == from {
        to + replace_spec(s.skip(from.len() as int), from, to)
    } else {
        seq![s[0]] + replace_spec(s.drop_first(), from, to)
    }
}

/// `s` with every `from` character replaced by `to`.
pub open spec fn replace_char_spec(s: Seq<char>, from: char, to: char) -> Seq<char> {
    s.map_values(|x: char| if x == from { to } else { x })
}

/// `s` ends with `suffix`.
pub open spec fn ends_with_spec(s: Seq<char>, suffix: Seq<char>) -> bool {
    s.len() >= suffix.len() && s.skip(s.len() - suffix.len()) == suffix
}

/// The character of a decimal digit.
pub open spec fn digit_char(d: nat) -> char {
    if d == 0 { '0' }
    else if d == 1 { '1' }
    else if d == 2 { '2' }
    else if d == 3 { '3' }
    else if d == 4 { '4' }
    else if d == 5 { '5' }
    else if d == 6 { '6' }
    else if d == 7 { '7' }
    else if d == 8 { '8' }
    else { '9' }
}

/// The decimal digits of `n`, most significant first, without leading zeros.
pub open spec fn decimal(n: nat) -> Seq<char>
    decreases n,
{
    if n < 10 {
        seq![digit_char(n)]
    } else {
        decimal(n / 10).push(digit_char(n % 10))
    }
}

/// The value of a character that is a decimal digit.
pub open spec fn digit_value(c: char) -> nat {
    if c == '1' { 1 }
    else if c == '2' { 2 }
    else if c == '3' { 3 }
    else if c == '4' { 4 }
    else if c == '5' { 5 }
    else if c == '6' { 6 }
    else if c == '7' { 7 }
    else if c == '8' { 8 }
    else if c == '9' { 9 }
    else { 0 }
}

/// The number that a sequence of decimal digits denotes.
pub open spec fn decimal_value(s: Seq<char>) -> nat
    decreases s.len(),
{
    if s.len() == 0 {
        0
    } else {
        decimal_value(s.drop_last()) * 10 + digit_value(s.last())
    }
}

/// The part of `s` after the first `c` (all of `s` when there is none).
pub open spec fn after_first(s: Seq<char>, c: char) -> Seq<char> {
    s.skip(first_index(s, c) + 1)
}

/// The part of `s` before the last `c`.
pub open spec fn before_last(s: Seq<char>, c: char) -> Seq<char> {
    s.take(last_index(s, c))
}

/// The part of `s` after the last `c` (all of `s` when there is none).
pub open spec fn after_last(s: Seq<char>, c: char) -> Seq<char> {
    s.skip(last_index(s, c) + 1)
}

// ----------------------------------------------------------------------
// Lemmas
// ----------------------------------------------------------------------

/// `first_index` is the first occurrence.
pub proof fn lemma_first_index(s: Seq<char>, c: char)
    ensures
        is_first_index(s, c, first_index(s, c)),
    decreases s.len(),
{
    if s.len() > 0 && s[0] != c {
        lemma_first_index(s.drop_first(), c);
        let k = first_index(s.drop_first(), c);
        if k < 0 {
            assert forall|j: int| 0 <= j < s.len() implies s[j] != c by {
                if j > 0 {
                    assert(s[j] == s.drop_first()[j - 1]);
                }
            }
        } else {
            assert forall|j: int| 0 <= j < k + 1 implies s[j] != c by {
                if j > 0 {
                    assert(s[j] == s.drop_first()[j - 1]);
                }
            }
        }
    }
}

/// `last_index` is the last occurrence.
pub proof fn lemma_last_index(s: Seq<char>, c: char)
    ensures
        -1 <= last_index(s, c) < s.len(),
        last_index(s, c) >= 0 ==> s[last_index(s, c)] == c,
        forall|j: int| last_index(s, c) < j < s.len() ==> s[j] != c,
    decreases s.len(),
{
    if s.len() > 0 && s.last() != c {
        lemma_last_index(s.drop_last(), c);
        assert forall|j: int| last_index(s, c) < j < s.len() implies s[j] != c by {
            if j < s.len() - 1 {
                assert(s[j] == s.drop_last()[j]);
            }
        }
    }
}

/// A `c` in the second part of a concatenation is the last `c` of the whole.
pub proof fn lemma_last_index_concat(a: Seq<char>, b: Seq<char>, c: char)
    requires
        last_index(b, c) >= 0,
    ensures
        last_index(a + b, c) == a.len() + last_index(b, c),
    decreases b.len(),
{
    if b.last() != c {
        lemma_last_index_concat(a, b.drop_last(), c);
        assert((a + b).drop_last() == a + b.drop_last());
    }
}

/// The first `c` of `a + [c] + b`, when `a` holds no `c`, is the one after `a`.
pub proof fn lemma_first_index_after_free(a: Seq<char>, c: char, b: Seq<char>)
    requires
        forall|i: int| 0 <= i < a.len() ==> a[i] != c,
    ensures
        first_index(a + seq![c] + b, c) == a.len(),
{
    let x = a + seq![c] + b;
    lemma_first_index(x, c);
    let k = first_index(x, c);
    assert(x[a.len() as int] == c);
    if 0 <= k < a.len() {
        assert(x[k] == a[k]);
    }
}

/// Appending text without `c` does not move the last `c`.
pub proof fn lemma_last_index_free_tail(a: Seq<char>, b: Seq<char>, c: char)
    requires
        forall|i: int| 0 <= i < b.len() ==> b[i] != c,
    ensures
        last_index(a + b, c) == last_index(a, c),
    decreases b.len(),
{
    if b.len() > 0 {
        assert(b.last() == b[b.len() - 1]);
        lemma_last_index_free_tail(a, b.drop_last(), c);
        assert((a + b).drop_last() =~= a + b.drop_last());
        assert((a + b).last() == b.last());
    } else {
        assert(a + b =~= a);
    }
}

/// Law: `s` ends with `suffix` exactly when it is some text followed by
/// `suffix`.
pub proof fn lemma_ends_with(s: Seq<char>, suffix: Seq<char>)
    ensures
        ends_with_spec(s, suffix) <==> exists|p: Seq<char>| s == p + suffix,
{
    if ends_with_spec(s, suffix) {
        let p = s.take(s.len() - suffix.len());
        assert(s =~= p + suffix);
    }
    if exists|p: Seq<char>| s == p + suffix {
        let p = choose|p: Seq<char>| s == p + suffix;
        assert(s.skip(s.len() - suffix.len()) =~= suffix);
    }
}

/// The split of any sequence has at least one piece.
pub proof fn lemma_split_nonempty(s: Seq<char>, c: char)
    ensures
        split_spec(s, c).len() >= 1,
    decreases s.len(),
{
    if s.len() > 0 {
        lemma_split_nonempty(s.drop_last(), c);
    }
}

/// Joining the pieces of a split with the separator gives back the original.
pub proof fn lemma_join_split(s: Seq<char>, c: char)
    ensures
        join_spec(split_spec(s, c), c) == s,
    decreases s.len(),
{
    if s.len() > 0 {
        let prev = split_spec(s.drop_last(), c);
        lemma_split_nonempty(s.drop_last(), c);
        lemma_join_split(s.drop_last(), c);
        let cur = split_spec(s, c);
        if s.last() == c {
            assert(cur.drop_last() == prev);
            assert(s == s.drop_last().push(c) + Seq::<char>::empty());
        } else {
            if prev.len() == 1 {
                assert(s == prev[0].push(s.last()));
            } else {
                assert(cur.drop_last() == prev.drop_last());
                let a = join_spec(prev.drop_last(), c).push(c);
                assert(s.drop_last() == a + prev.last());
                assert(s == s.drop_last().push(s.last()));
                assert(s =~= a + prev.last().push(s.last()));
            }
        }
    }
}

/// Law: no piece of a split holds the separator (so, with
/// `lemma_join_split`, the pieces are exactly the stretches between
/// separators).
pub proof fn lemma_split_pieces_free(s: Seq<char>, c: char)
    ensures
        forall|i: int, j: int|
            0 <= i < split_spec(s, c).len() && 0 <= j < split_spec(s, c)[i].len()
                ==> split_spec(s, c)[i][j] != c,
    decreases s.len(),
{
    if s.len() > 0 {
        lemma_split_pieces_free(s.drop_last(), c);
        lemma_split_nonempty(s.drop_last(), c);
        let prev = split_spec(s.drop_last(), c);
        let cur = split_spec(s, c);
        assert forall|i: int, j: int| 0 <= i < cur.len() && 0 <= j < cur[i].len() implies cur[i][j] != c by {
            if s.last() == c {
                if i < prev.len() {
                    assert(cur[i] == prev[i]);
                }
            } else {
                if i < prev.len() - 1 {
                    assert(cur[i] == prev[i]);
                } else {
                    assert(cur[i] == prev.last().push(s.last()));
                    if j < prev.last().len() {
                        assert(cur[i][j] == prev[prev.len() - 1][j]);
                    }
                }
            }
        }
    }
}

/// An occurrence of `from` starts at position `i` of `x`.
pub open spec fn match_at(x: Seq<char>, i: int, from: Seq<char>) -> bool {
    i + from.len() <= x.len() && x.subrange(i, i + from.len()) == from
}

/// No occurrence of `from` starts before position `n` of `x`.
pub open spec fn no_match_before(x: Seq<char>, n: int, from: Seq<char>) -> bool {
    forall|i: int| 0 <= i < n ==> !#[trigger] match_at(x, i, from)
}

/// Law: an occurrence of `from` at the front is replaced by `to`, and the
/// rest is replaced in the same way.
pub proof fn lemma_replace_front(s: Seq<char>, from: Seq<char>, to: Seq<char>)
    requires
        from.len() > 0,
    ensures
        replace_spec(from + s, from, to) == to + replace_spec(s, from, to),
{
    let x = from + s;
    assert(x.take(from.len() as int) =~= from);
    assert(x.skip(from.len() as int) =~= s);
}

/// Law: text in which `from` does not occur is kept unchanged.
pub proof fn lemma_replace_absent(s: Seq<char>, from: Seq<char>, to: Seq<char>)
    requires
        from.len() > 0,
        no_match_before(s, s.len() as int, from),
    ensures
        replace_spec(s, from, to) == s,
    decreases s.len(),
{
    if s.len() >= from.len() {
        assert(s.subrange(0, from.len() as int) == s.take(from.len() as int));
        let t = s.drop_first();
        assert forall|i: int| 0 <= i < t.len() implies !#[trigger] match_at(t, i, from) by {
            if i + from.len() <= t.len() {
                assert(t.subrange(i, i + from.len()) =~= s.subrange(i + 1, i + 1 + from.len()));
                assert(!match_at(s, i + 1, from));
            }
        }
        assert(!match_at(s, 0, from));
        lemma_replace_absent(t, from, to);
        assert(seq![s[0]] + t =~= s);
    }
}

/// Law: replacing in `a`, an occurrence of `from`, then `b` replaces in
/// each part separately, when no occurrence of `from` starts inside `a`
/// (so every occurrence is replaced, one after the other, left to right).
pub proof fn lemma_replace_split(a: Seq<char>, b: Seq<char>, from: Seq<char>, to: Seq<char>)
    requires
        from.len() > 0,
        no_match_before(a + from + b, a.len() as int, from),
    ensures
        replace_spec(a + from + b, from, to) == replace_spec(a, from, to) + to + replace_spec(b, from, to),
    decreases a.len(),
{
    let x = a + from + b;
    if a.len() == 0 {
        assert(x =~= from + b);
        lemma_replace_front(b, from, to);
        assert(replace_spec(a, from, to) == a);
        assert(a + to + replace_spec(b, from, to) =~= to + replace_spec(b, from, to));
    } else {
        let a1 = a.drop_first();
        let x1 = a1 + from + b;
        assert(x.subrange(0, from.len() as int) == x.take(from.len() as int));
        assert(x.drop_first() =~= x1);
        assert forall|i: int| 0 <= i < a1.len() implies !#[trigger] match_at(x1, i, from) by {
            if i + from.len() <= x1.len() {
                assert(x1.subrange(i, i + from.len()) =~= x.subrange(i + 1, i + 1 + from.len()));
                assert(!match_at(x, i + 1, from));
            }
        }
        assert(!match_at(x, 0, from));
        lemma_replace_split(a1, b, from, to);
        assert(replace_spec(x, from, to) == seq![x[0]] + replace_spec(x1, from, to));
        if a.len() >= from.len() {
            assert(a.take(from.len() as int) =~= x.take(from.len() as int));
        }
        assert(replace_spec(a, from, to) == seq![a[0]] + replace_spec(a1, from, to));
        assert(x[0] == a[0]);
        assert(seq![a[0]] + replace_spec(a1, from, to) + to + replace_spec(b, from, to)
            =~= seq![a[0]] + (replace_spec(a1, from, to) + to + replace_spec(b, from, to)));
    }
}

/// The decimal rendering has no leading zero unless it is the single digit 0.
pub proof fn lemma_decimal_shape(n: nat)
    ensures
        decimal(n).len() >= 1,
        decimal(n).len() > 1 ==> decimal(n)[0] != '0',
        n >= 10 ==> decimal(n).len() > 1,
    decreases n,
{
    if n >= 10 {
        lemma_decimal_shape(n / 10);
    }
}

/// Law: a number below ten is its one digit, and a larger number is the
/// rendering of its tens followed by its last digit.
pub proof fn lemma_decimal_digits(n: nat)
    ensures
        n < 10 ==> decimal(n) == seq![digit_char(n)],
        n >= 10 ==> decimal(n) == decimal(n / 10) + seq![digit_char(n % 10)],
        digit_char(0) == '0' && digit_char(1) == '1' && digit_char(2) == '2' && digit_char(3) == '3'
            && digit_char(4) == '4' && digit_char(5) == '5' && digit_char(6) == '6'
            && digit_char(7) == '7' && digit_char(8) == '8' && digit_char(9) == '9',
{
    if n >= 10 {
        assert(decimal(n / 10).push(digit_char(n % 10)) =~= decimal(n / 10) + seq![digit_char(n % 10)]);
    }
}

/// Reading back the decimal rendering of `n` gives `n`.
pub proof fn lemma_decimal_value(n: nat)
    ensures
        decimal_value(decimal(n)) == n,
    decreases n,
{
    assert(forall|d: nat| d < 10 ==> #[trigger] digit_value(digit_char(d)) == d);
    if n >= 10 {
        lemma_decimal_value(n / 10);
        assert(decimal(n).drop_last() == decimal(n / 10));
        assert(decimal(n).last() == digit_char(n % 10));
        assert(n == (n / 10) * 10 + n % 10);
        lemma_decimal_shape(n);
        assert(decimal_value(decimal(n)) == decimal_value(decimal(n / 10)) * 10 + digit_value(digit_char(n % 10)));
    } else {
        assert(decimal(n).drop_last() == Seq::<char>::empty());
        assert(decimal(n).last() == digit_char(n));
        assert(decimal_value(decimal(n)) == decimal_value(Seq::<char>::empty()) * 10 + digit_value(digit_char(n)));
    }
}

/// Distinct numbers have distinct decimal renderings.
pub proof fn lemma_decimal_injective(m: nat, n: nat)
    ensures
        decimal(m) == decimal(n) ==> m == n,
{
    lemma_decimal_value(m);
    lemma_decimal_value(n);
}

// ----------------------------------------------------------------------
// Executable operations
// ----------------------------------------------------------------------

/// Appends one character to a string (`String::push`).
#[verifier::external_body]
pub(crate) fn push_char(s: &mut String, c: char)
    ensures
        final(s)@ == old(s)@.push(c),
{
    s.push(c);
}

/// The characters of `s`, in order.
pub fn chars_of(s: &str) -> (res: Vec<char>)
    ensures
        res@ == s@,
{
    let mut res: Vec<char> = Vec::new();
    for c in it: s.chars()
        invariant
            res@ == it.seq().take(it.index() as int),
            it.seq() == s@,
    {
        res.push(c);
    }
    res
}

/// The string made of `v[lo..hi]`.
pub fn string_of_range(v: &Vec<char>, lo: usize, hi: usize) -> (res: String)
    requires
        lo <= hi <= v@.len(),
    ensures
        res@ == v@.subrange(lo as int, hi as int),
{
    let mut res = String::new();
    let mut i: usize = lo;
    while i < hi
        invariant
            lo <= i <= hi <= v@.len(),
            res@ == v@.subrange(lo as int, i as int),
        decreases hi - i,
    {
        push_char(&mut res, v[i]);
        assert(v@.subrange(lo as int, i + 1) == v@.subrange(lo as int, i as int).push(v@[i as int]));
        i = i + 1;
    }
    res
}

/// The position of the last `c` in `v`, if any.
pub fn last_index_of(v: &Vec<char>, c: char) -> (res: Option<usize>)
    ensures
        match res {
            Some(k) => k == last_index(v@, c),
            None => last_index(v@, c) == -1,
        },
{
    let mut i: usize = v.len();
    assert(v@.take(i as int) == v@);
    while i > 0
        invariant
            i <= v@.len(),
            last_index(v@.take(i as int), c) == last_index(v@, c),
        decreases i,
    {
        assert(v@.take(i as int).last() == v@[i - 1]);
        if v[i - 1] == c {
            return Some(i - 1);
        }
        assert(v@.take(i as int).drop_last() == v@.take(i - 1));
        i = i - 1;
    }
    None
}

/// The position of the first `c` in `v`, if any.
pub fn first_index_of(v: &Vec<char>, c: char) -> (res: Option<usize>)
    ensures
        match res {
            Some(k) => k == first_index(v@, c),
            None => first_index(v@, c) == -1,
        },
{
    proof {
        lemma_first_index(v@, c);
    }
    let mut i: usize = 0;
    while i < v.len()
        invariant
            i <= v@.len(),
            is_first_index(v@, c, first_index(v@, c)),
            forall|j: int| 0 <= j < i ==> v@[j] != c,
        decreases v@.len() - i,
    {
        if v[i] == c {
            return Some(i);
        }
        i = i + 1;
    }
    None
}

/// `v[at..at + pat.len()]` equals `pat`.
fn matches_at(v: &Vec<char>, at: usize, pat: &Vec<char>) -> (res: bool)
    requires
        at + pat@.len() <= v@.len(),
    ensures
        res == (v@.subrange(at as int, at + pat@.len()) == pat@),
{
    let mut j: usize = 0;
    while j < pat.len()
        invariant
            j <= pat@.len(),
            at + pat@.len() <= v@.len(),
            forall|k: int| 0 <= k < j ==> v@[at + k] == pat@[k],
        decreases pat@.len() - j,
    {
        assert(at + j < v.len());
        if v[at + j] != pat[j] {
            assert(v@.subrange(at as int, at + pat@.len())[j as int] != pat@[j as int]);
            return false;
        }
        j = j + 1;
    }
    assert(v@.subrange(at as int, at + pat@.len()) =~= pat@);
    true
}

/// `s` ends with `suffix` (`str::ends_with`).
pub fn ends_with(s: &str, suffix: &str) -> (res: bool)
    ensures
        res == ends_with_spec(s@, suffix@),
{
    let v = chars_of(s);
    let p = chars_of(suffix);
    if v.len() < p.len() {
        return false;
    }
    let at: usize = v.len() - p.len();
    let r = matches_at(&v, at, &p);
    assert(v@.subrange(at as int, at + p@.len()) == v@.skip(at as int));
    r
}

/// `s` with each occurrence of `from` replaced by `to` (`str::replace`).
pub fn replace_str(s: &str, from: &str, to: &str) -> (res: String)
    requires
        from@.len() > 0,
    ensures
        res@ == replace_spec(s@, from@, to@),
{
    let v = chars_of(s);
    let p = chars_of(from);
    let m: usize = p.len();
    let n: usize = v.len();
    let mut res = String::new();
    let mut i: usize = 0;
    assert(s@.skip(0) == s@);
    while i < n
        invariant
            n == v@.len(),
            m == p@.len(),
            m > 0,
            p@ == from@,
            v@ == s@,
            i <= n,
            replace_spec(s@, from@, to@) == res@ + replace_spec(s@.skip(i as int), from@, to@),
        decreases n - i,
    {
        let ghost rest = s@.skip(i as int);
        if n - i < m {
            let tail = string_of_range(&v, i, n);
            assert(tail@ == rest);
            res.append(tail.as_str());
            assert(replace_spec(s@, from@, to@) == res@);
            return res;
        }
        assert(rest.take(m as int) == v@.subrange(i as int, i + m));
        if matches_at(&v, i, &p) {
            res.append(to);
            assert(rest.skip(m as int) == s@.skip(i + m));
            i = i + m;
        } else {
            push_char(&mut res, v[i]);
            assert(rest.drop_first() == s@.skip(i + 1));
            i = i + 1;
        }
    }
    assert(s@.skip(n as int) == Seq::<char>::empty());
    res
}

/// `s` with every `from` character replaced by `to`.
pub fn replace_char(s: &str, from: char, to: char) -> (res: String)
    ensures
        res@ == replace_char_spec(s@, from, to),
{
    let v = chars_of(s);
    let mut res = String::new();
    let mut i: usize = 0;
    while i < v.len()
        invariant
            v@ == s@,
            i <= v@.len(),
            res@ == replace_char_spec(s@.take(i as int), from, to),
        decreases v@.len() - i,
    {
        let c = v[i];
        if c == from {
            push_char(&mut res, to);
        } else {
            push_char(&mut res, c);
        }
        assert(replace_char_spec(s@.take(i + 1), from, to)
            == replace_char_spec(s@.take(i as int), from, to).push(if c == from { to } else { c }));
        i = i + 1;
    }
    assert(s@.take(v@.len() as int) == s@);
    res
}

/// The pieces of `s` between the occurrences of `c` (`str::split`).
pub fn split_on(s: &str, c: char) -> (res: Vec<String>)
    ensures
        res.deep_view() == split_spec(s@, c),
{
    let v = chars_of(s);
    let mut parts: Vec<String> = Vec::new();
    let mut cur = String::new();
    let mut i: usize = 0;
    while i < v.len()
        invariant
            v@ == s@,
            i <= v@.len(),
            split_spec(s@.take(i as int), c) == parts.deep_view().push(cur@),
        decreases v@.len() - i,
    {
        let ghost before = parts.deep_view().push(cur@);
        assert(s@.take(i + 1).drop_last() == s@.take(i as int));
        if v[i] == c {
            parts.push(cur);
            cur = String::new();
            assert(parts.deep_view() == before);
        } else {
            push_char(&mut cur, v[i]);
            assert(parts.deep_view().push(cur@) == before.update(before.len() - 1, before.last().push(v@[i as int])));
        }
        i = i + 1;
    }
    assert(s@.take(v@.len() as int) == s@);
    parts.push(cur);
    parts
}

/// The digit character of `d < 10`.
fn digit(d: usize) -> (c: char)
    requires
        d < 10,
    ensures
        c == digit_char(d as nat),
{
    if d == 0 { '0' }
    else if d == 1 { '1' }
    else if d == 2 { '2' }
    else if d == 3 { '3' }
    else if d == 4 { '4' }
    else if d == 5 { '5' }
    else if d == 6 { '6' }
    else if d == 7 { '7' }
    else if d == 8 { '8' }
    else { '9' }
}

/// The decimal rendering of `n` (`usize::to_string`).
pub fn decimal_string(n: usize) -> (res: String)
    ensures
        res@ == decimal(n as nat),
    decreases n,
{
    if n < 10 {
        let mut s = String::new();
        push_char(&mut s, digit(n));
        s
    } else {
        let mut s = decimal_string(n / 10);
        push_char(&mut s, digit(n % 10));
        s
    }
}

} // verus!
