//! Character-level text handling: whitespace, trimming, searching, line
//! splitting and decimal parsing, each with a mathematical model over
//! `Seq<char>`.
use vstd::prelude::*;

verus! {

/// Unicode `White_Space` property, the set that `char::is_whitespace` and
/// `str::trim` use.
pub open spec fn is_ws(c: char) -> bool {
    let u = c as u32;
    ||| 0x09 <= u <= 0x0d
    ||| u == 0x20
    ||| u == 0x85
    ||| u == 0xa0
    ||| u == 0x1680
    ||| 0x2000 <= u <= 0x200a
    ||| u == 0x2028
    ||| u == 0x2029
    ||| u == 0x202f
    ||| u == 0x205f
    ||| u == 0x3000
}

pub fn is_whitespace(c: char) -> (r: bool)
    ensures
        r == is_ws(c),
{
    let u = c as u32;
    (0x09 <= u && u <= 0x0d) || u == 0x20 || u == 0x85 || u == 0xa0 || u == 0x1680 || (0x2000
        <= u && u <= 0x200a) || u == 0x2028 || u == 0x2029 || u == 0x202f || u == 0x205f || u
        == 0x3000
}

/// The characters of `s`, one element per Unicode scalar value.
pub fn chars_of(s: &str) -> (v: Vec<char>)
    ensures
        v@ == s@,
{
    let mut v: Vec<char> = Vec::new();
    for c in it: s.chars()
        invariant
            v@ == it.seq().take(it.index()),
    {
        v.push(c);
    }
    v
}


/// `s` with leading whitespace removed, as `str::trim_start` does.
pub open spec fn trim_start(s: Seq<char>) -> Seq<char>
    decreases s.len(),
{
    if s.len() > 0 && is_ws(s[0]) {
        trim_start(s.drop_first())
    } else {
        s
    }
}

/// `s` with trailing whitespace removed, as `str::trim_end` does.
pub open spec fn trim_end(s: Seq<char>) -> Seq<char>
    decreases s.len(),
{
    if s.len() > 0 && is_ws(s.last()) {
        trim_end(s.drop_last())
    } else {
        s
    }
}

/// `s` with whitespace removed at both ends, as `str::trim` does.
pub open spec fn trim(s: Seq<char>) -> Seq<char> {
    trim_end(trim_start(s))
}

/// Bounds of `trim_start` applied to `s[lo..hi]`.
pub fn trim_start_range(s: &Vec<char>, lo: usize, hi: usize) -> (r: usize)
    requires
        lo <= hi <= s@.len(),
    ensures
        lo <= r <= hi,
        s@.subrange(r as int, hi as int) == trim_start(s@.subrange(lo as int, hi as int)),
{
    let mut i = lo;
    while i < hi && is_whitespace(s[i])
        invariant
            lo <= i <= hi <= s@.len(),
            trim_start(s@.subrange(lo as int, hi as int)) == trim_start(
                s@.subrange(i as int, hi as int),
            ),
        decreases hi - i,
    {
        assert(s@.subrange(i as int, hi as int).drop_first() =~= s@.subrange(
            i + 1,
            hi as int,
        ));
        i = i + 1;
    }
    i
}

/// Bounds of `trim` applied to `s[lo..hi]`.
pub fn trim_range(s: &Vec<char>, lo: usize, hi: usize) -> (r: (usize, usize))
    requires
        lo <= hi <= s@.len(),
    ensures
        lo <= r.0 <= r.1 <= hi,
        s@.subrange(r.0 as int, r.1 as int) == trim(s@.subrange(lo as int, hi as int)),
{
    let i = trim_start_range(s, lo, hi);
    let mut j = hi;
    while j > i && is_whitespace(s[j - 1])
        invariant
            lo <= i <= j <= hi <= s@.len(),
            trim_end(s@.subrange(i as int, hi as int)) == trim_end(
                s@.subrange(i as int, j as int),
            ),
        decreases j,
    {
        assert(s@.subrange(i as int, j as int).drop_last() =~= s@.subrange(
            i as int,
            j - 1,
        ));
        j = j - 1;
    }
    (i, j)
}

/// `p` occurs in `s` starting at index `i`.
pub open spec fn occurs_at(s: Seq<char>, i: int, p: Seq<char>) -> bool {
    &&& 0 <= i
    &&& i + p.len() <= s.len()
    &&& forall|k: int| 0 <= k < p.len() ==> s[i + k] == p[k]
}

/// `s` begins with `p`.
pub open spec fn starts_with(s: Seq<char>, p: Seq<char>) -> bool {
    occurs_at(s, 0, p)
}

/// `p` occurs somewhere in `s`, as `str::contains` with a string pattern.
pub open spec fn contains_seq(s: Seq<char>, p: Seq<char>) -> bool {
    exists|i: int| occurs_at(s, i, p)
}

/// Whether `p` occurs in `s[lo..hi]` at absolute position `i`.
pub fn occurs_at_range(s: &Vec<char>, lo: usize, hi: usize, i: usize, p: &[char]) -> (r: bool)
    requires
        lo <= i <= hi <= s@.len(),
    ensures
        r == occurs_at(s@.subrange(lo as int, hi as int), i - lo, p@),
{
    let ghost sub = s@.subrange(lo as int, hi as int);
    if p.len() > hi - i {
        return false;
    }
    let mut k: usize = 0;
    while k < p.len()
        invariant
            lo <= i <= hi <= s@.len(),
            i + p@.len() <= hi,
            k <= p@.len(),
            sub == s@.subrange(lo as int, hi as int),
            forall|j: int| 0 <= j < k ==> sub[i - lo + j] == p@[j],
        decreases p@.len() - k,
    {
        if s[i + k] != p[k] {
            assert(sub[i - lo + k] != p@[k as int]);
            return false;
        }
        k = k + 1;
    }
    true
}

/// Whether `s[lo..hi]` begins with `p`.
pub fn starts_with_range(s: &Vec<char>, lo: usize, hi: usize, p: &[char]) -> (r: bool)
    requires
        lo <= hi <= s@.len(),
    ensures
        r == starts_with(s@.subrange(lo as int, hi as int), p@),
{
    occurs_at_range(s, lo, hi, lo, p)
}

/// Whether `p` occurs in `s[lo..hi]`.
pub fn contains_range(s: &Vec<char>, lo: usize, hi: usize, p: &[char]) -> (r: bool)
    requires
        lo <= hi <= s@.len(),
    ensures
        r == contains_seq(s@.subrange(lo as int, hi as int), p@),
{
    let ghost sub = s@.subrange(lo as int, hi as int);
    if p.len() == 0 {
        assert(occurs_at(sub, 0, p@));
        return true;
    }
    if p.len() > hi - lo {
        assert forall|j: int| !occurs_at(sub, j, p@) by {}
        return false;
    }
    let last = hi - p.len();
    let mut i = lo;
    while i <= last
        invariant
            lo <= i <= last + 1,
            last < hi <= s@.len(),
            last == hi - p@.len(),
            sub == s@.subrange(lo as int, hi as int),
            forall|j: int| 0 <= j < i - lo ==> !occurs_at(sub, j, p@),
        decreases last + 1 - i,
    {
        if occurs_at_range(s, lo, hi, i, p) {
            return true;
        }
        i = i + 1;
    }
    assert forall|j: int| !occurs_at(sub, j, p@) by {
        if 0 <= j < i - lo {
        } else if occurs_at(sub, j, p@) {
            assert(j + p@.len() <= sub.len());
        }
    }
    false
}

/// `i` is the first index of `c` in `s`.
pub open spec fn is_first(s: Seq<char>, c: char, i: int) -> bool {
    &&& 0 <= i < s.len()
    &&& s[i] == c
    &&& forall|j: int| 0 <= j < i ==> s[j] != c
}

/// `i` is the last index of `c` in `s`.
pub open spec fn is_last(s: Seq<char>, c: char, i: int) -> bool {
    &&& 0 <= i < s.len()
    &&& s[i] == c
    &&& forall|j: int| i < j < s.len() ==> s[j] != c
}

/// First index of `c` in `s`, as `str::find` with a `char` pattern (counted
/// in characters rather than bytes).
pub open spec fn first_index(s: Seq<char>, c: char) -> Option<int> {
    if exists|i: int| is_first(s, c, i) {
        Some(choose|i: int| is_first(s, c, i))
    } else {
        None
    }
}

/// Last index of `c` in `s`, as `str::rfind` with a `char` pattern.
pub open spec fn last_index(s: Seq<char>, c: char) -> Option<int> {
    if exists|i: int| is_last(s, c, i) {
        Some(choose|i: int| is_last(s, c, i))
    } else {
        None
    }
}

/// Absolute index of the first `c` in `s[lo..hi]`.
pub fn find_char(s: &Vec<char>, lo: usize, hi: usize, c: char) -> (r: Option<usize>)
    requires
        lo <= hi <= s@.len(),
    ensures
        match r {
            Some(k) => lo <= k < hi && first_index(s@.subrange(lo as int, hi as int), c) == Some(
                k - lo,
            ),
            None => first_index(s@.subrange(lo as int, hi as int), c) is None,
        },
{
    let ghost sub = s@.subrange(lo as int, hi as int);
    let mut i = lo;
    while i < hi
        invariant
            lo <= i <= hi <= s@.len(),
            sub == s@.subrange(lo as int, hi as int),
            forall|j: int| 0 <= j < i - lo ==> sub[j] != c,
        decreases hi - i,
    {
        if s[i] == c {
            let ghost k = i - lo;
            assert(is_first(sub, c, k));
            let ghost w = choose|j: int| is_first(sub, c, j);
            assert(w == k) by {
                if w < k {
                    assert(sub[w] != c);
                } else if k < w {
                    assert(sub[k] != c);
                }
            }
            return Some(i);
        }
        i = i + 1;
    }
    assert(!exists|j: int| is_first(sub, c, j));
    None
}

/// Absolute index of the last `c` in `s[lo..hi]`.
pub fn rfind_char(s: &Vec<char>, lo: usize, hi: usize, c: char) -> (r: Option<usize>)
    requires
        lo <= hi <= s@.len(),
    ensures
        match r {
            Some(k) => lo <= k < hi && last_index(s@.subrange(lo as int, hi as int), c) == Some(
                k - lo,
            ),
            None => last_index(s@.subrange(lo as int, hi as int), c) is None,
        },
{
    let ghost sub = s@.subrange(lo as int, hi as int);
    let mut i = hi;
    while i > lo
        invariant
            lo <= i <= hi <= s@.len(),
            sub == s@.subrange(lo as int, hi as int),
            forall|j: int| i - lo <= j < hi - lo ==> sub[j] != c,
        decreases i,
    {
        if s[i - 1] == c {
            let ghost k = i - 1 - lo;
            assert(is_last(sub, c, k));
            let ghost w = choose|j: int| is_last(sub, c, j);
            assert(w == k) by {
                if w < k {
                    assert(sub[k] != c);
                } else if k < w {
                    assert(sub[w] != c);
                }
            }
            return Some(i - 1);
        }
        i = i - 1;
    }
    assert(!exists|j: int| is_last(sub, c, j));
    None
}


/// `s` with every leading `c` removed, as `str::trim_start_matches` with a
/// `char` pattern.
pub open spec fn skip_leading(s: Seq<char>, c: char) -> Seq<char>
    decreases s.len(),
{
    if s.len() > 0 && s[0] == c {
        skip_leading(s.drop_first(), c)
    } else {
        s
    }
}

/// Start of `skip_leading(s[lo..hi], c)`.
pub fn skip_leading_range(s: &Vec<char>, lo: usize, hi: usize, c: char) -> (r: usize)
    requires
        lo <= hi <= s@.len(),
    ensures
        lo <= r <= hi,
        s@.subrange(r as int, hi as int) == skip_leading(s@.subrange(lo as int, hi as int), c),
{
    let mut i = lo;
    while i < hi && s[i] == c
        invariant
            lo <= i <= hi <= s@.len(),
            skip_leading(s@.subrange(lo as int, hi as int), c) == skip_leading(
                s@.subrange(i as int, hi as int),
                c,
            ),
        decreases hi - i,
    {
        assert(s@.subrange(i as int, hi as int).drop_first() =~= s@.subrange(
            i + 1,
            hi as int,
        ));
        i = i + 1;
    }
    i
}

/// An ASCII decimal digit, as `char::is_ascii_digit`.
pub open spec fn is_digit(c: char) -> bool {
    48 <= c as u32 <= 57
}

/// Value of the digit `c`.
pub open spec fn digit_of(c: char) -> nat {
    if is_digit(c) {
        (c as u32 - 48) as nat
    } else {
        0
    }
}

/// Every element of `s` is a decimal digit.
pub open spec fn all_digits(s: Seq<char>) -> bool {
    forall|i: int| 0 <= i < s.len() ==> is_digit(#[trigger] s[i])
}

/// Value of the decimal numeral `s` (most significant digit first).
pub open spec fn digits_value(s: Seq<char>) -> nat
    decreases s.len(),
{
    if s.len() == 0 {
        0
    } else {
        digits_value(s.drop_last()) * 10 + digit_of(s.last())
    }
}

/// What `<u32 as FromStr>::from_str` gives: an optional `+`, then at least
/// one ASCII digit and nothing else, with a value that fits in `u32`.
pub open spec fn decimal_u32(s: Seq<char>) -> Option<u32> {
    let d = if s.len() > 0 && s[0] == '+' {
        s.drop_first()
    } else {
        s
    };
    if d.len() > 0 && all_digits(d) && digits_value(d) <= u32::MAX {
        Some(digits_value(d) as u32)
    } else {
        None
    }
}

/// Decimal value of `s[lo..hi]` as `decimal_u32` states it.
pub fn parse_u32_range(s: &Vec<char>, lo: usize, hi: usize) -> (r: Option<u32>)
    requires
        lo <= hi <= s@.len(),
    ensures
        r == decimal_u32(s@.subrange(lo as int, hi as int)),
{
    let ghost sub = s@.subrange(lo as int, hi as int);
    let mut start = lo;
    if start < hi && s[start] == '+' {
        start = start + 1;
    }
    let ghost d = if sub.len() > 0 && sub[0] == '+' {
        sub.drop_first()
    } else {
        sub
    };
    assert(d =~= s@.subrange(start as int, hi as int));
    if start == hi {
        return None;
    }
    let limit: u64 = 0xffff_ffff;
    let mut acc: u64 = 0;
    let mut i = start;
    while i < hi
        invariant
            lo <= start <= i <= hi <= s@.len(),
            d == s@.subrange(start as int, hi as int),
            sub == s@.subrange(lo as int, hi as int),
            d == (if sub.len() > 0 && sub[0] == '+' {
                sub.drop_first()
            } else {
                sub
            }),
            all_digits(s@.subrange(start as int, i as int)),
            limit == u32::MAX,
            acc == if digits_value(s@.subrange(start as int, i as int)) <= limit {
                digits_value(s@.subrange(start as int, i as int)) as int
            } else {
                limit + 1
            },
        decreases hi - i,
    {
        let c = s[i];
        let u = c as u32;
        if !(48 <= u && u <= 57) {
            assert(d[i - start] == c);
            assert(!is_digit(d[i - start]));
            assert(!all_digits(d));
            return None;
        }
        let ghost prev = s@.subrange(start as int, i as int);
        let ghost next = s@.subrange(start as int, i + 1);
        assert(next.drop_last() =~= prev);
        assert(next.last() == c);
        assert(all_digits(next));
        let digit = (u - 48) as u64;
        if acc > limit {
            assert(digits_value(next) > limit) by (nonlinear_arith)
                requires
                    digits_value(next) == digits_value(prev) * 10 + digit_of(c),
                    digits_value(prev) > limit,
            ;
            acc = limit + 1;
        } else {
            acc = acc * 10 + digit;
            if acc > limit {
                acc = limit + 1;
            }
        }
        i = i + 1;
    }
    if acc > limit {
        None
    } else {
        Some(acc as u32)
    }
}

/// `t` without one trailing carriage return.
pub open spec fn strip_cr(t: Seq<char>) -> Seq<char> {
    if t.len() > 0 && t.last() == '\r' {
        t.drop_last()
    } else {
        t
    }
}

/// The lines of `s`, as `str::lines` yields them: split at `\n`, a `\r`
/// just before a `\n` dropped, and no empty line after a final `\n`.
pub open spec fn lines(s: Seq<char>) -> Seq<Seq<char>>
    decreases s.len(),
{
    match first_index(s, '\n') {
        Some(k) => seq![strip_cr(s.take(k))] + lines(s.skip(k + 1)),
        None => if s.len() == 0 {
            Seq::empty()
        } else {
            seq![s]
        },
    }
}

/// Every character of `s` satisfies `p`.
pub open spec fn all_chars(s: Seq<char>, p: spec_fn(char) -> bool) -> bool {
    forall|i: int| 0 <= i < s.len() ==> p(#[trigger] s[i])
}

/// Trimming keeps a property that holds of every character.
pub proof fn lemma_trim_keeps_all(s: Seq<char>, p: spec_fn(char) -> bool)
    requires
        all_chars(s, p),
    ensures
        all_chars(trim_start(s), p),
        all_chars(trim_end(s), p),
        all_chars(trim(s), p),
    decreases s.len(),
{
    if s.len() > 0 {
        assert(all_chars(s.drop_first(), p)) by {
            assert forall|i: int| 0 <= i < s.drop_first().len() implies p(
                #[trigger] s.drop_first()[i],
            ) by {
                assert(s.drop_first()[i] == s[i + 1]);
            }
        }
        assert(all_chars(s.drop_last(), p)) by {
            assert forall|i: int| 0 <= i < s.drop_last().len() implies p(
                #[trigger] s.drop_last()[i],
            ) by {
                assert(s.drop_last()[i] == s[i]);
            }
        }
        lemma_trim_keeps_all(s.drop_first(), p);
        lemma_trim_keeps_all(s.drop_last(), p);
    }
    lemma_trim_end_keeps_all(trim_start(s), p);
}

/// Trimming the end keeps a property that holds of every character.
proof fn lemma_trim_end_keeps_all(s: Seq<char>, p: spec_fn(char) -> bool)
    requires
        all_chars(s, p),
    ensures
        all_chars(trim_end(s), p),
    decreases s.len(),
{
    if s.len() > 0 {
        assert(all_chars(s.drop_last(), p)) by {
            assert forall|i: int| 0 <= i < s.drop_last().len() implies p(
                #[trigger] s.drop_last()[i],
            ) by {
                assert(s.drop_last()[i] == s[i]);
            }
        }
        lemma_trim_end_keeps_all(s.drop_last(), p);
    }
}

/// Dropping leading `c`s keeps a property that holds of every character.
pub proof fn lemma_skip_leading_keeps_all(s: Seq<char>, c: char, p: spec_fn(char) -> bool)
    requires
        all_chars(s, p),
    ensures
        all_chars(skip_leading(s, c), p),
    decreases s.len(),
{
    if s.len() > 0 && s[0] == c {
        assert(all_chars(s.drop_first(), p)) by {
            assert forall|i: int| 0 <= i < s.drop_first().len() implies p(
                #[trigger] s.drop_first()[i],
            ) by {
                assert(s.drop_first()[i] == s[i + 1]);
            }
        }
        lemma_skip_leading_keeps_all(s.drop_first(), c, p);
    }
}

/// `first_index` is the index that `is_first` describes.
pub proof fn lemma_first_index_is(q: Seq<char>, c: char, k: int)
    requires
        is_first(q, c, k),
    ensures
        first_index(q, c) == Some(k),
{
    let w = choose|i: int| is_first(q, c, i);
    assert(is_first(q, c, w));
    assert(w == k) by {
        if w < k {
            assert(q[w] != c);
        } else if k < w {
            assert(q[k] != c);
        }
    }
}

/// An occurrence of `c` at `i` has a first occurrence at or before it.
pub proof fn lemma_first_exists(s: Seq<char>, c: char, i: int)
    requires
        0 <= i < s.len(),
        s[i] == c,
    ensures
        exists|k: int| 0 <= k <= i && is_first(s, c, k),
    decreases i,
{
    if forall|j: int| 0 <= j < i ==> s[j] != c {
        assert(is_first(s, c, i));
    } else {
        let j = choose|j: int| 0 <= j < i && s[j] == c;
        lemma_first_exists(s, c, j);
    }
}

/// Text that is empty or ends with a newline splits into lines on its own:
/// the lines of `p + s` are those of `p` followed by those of `s`.
pub proof fn lemma_lines_append(p: Seq<char>, s: Seq<char>)
    requires
        p.len() == 0 || p.last() == '\n',
    ensures
        lines(p + s) == lines(p) + lines(s),
    decreases p.len(),
{
    if p.len() == 0 {
        assert(p + s =~= s);
        assert(!exists|i: int| is_first(p, '\n', i));
        assert(lines(p) =~= Seq::<Seq<char>>::empty());
        assert(lines(p) + lines(s) =~= lines(s));
    } else {
        lemma_first_exists(p, '\n', p.len() - 1);
        let k = choose|k: int| 0 <= k <= p.len() - 1 && is_first(p, '\n', k);
        lemma_first_index_is(p, '\n', k);
        let q = p + s;
        assert(is_first(q, '\n', k));
        lemma_first_index_is(q, '\n', k);
        assert(q.take(k) =~= p.take(k));
        let rest = p.skip(k + 1);
        assert(q.skip(k + 1) =~= rest + s);
        if rest.len() > 0 {
            assert(rest.last() == p.last());
        }
        lemma_lines_append(rest, s);
        let head = seq![strip_cr(p.take(k))];
        assert(lines(p) == head + lines(rest));
        assert(lines(q) == head + lines(rest + s));
        assert(head + (lines(rest) + lines(s)) =~= (head + lines(rest)) + lines(s));
    }
}

/// A line `h` followed by a newline is read as `strip_cr(h)`, and the lines
/// of what follows come after it.
pub proof fn lemma_line_then_rest(h: Seq<char>, t: Seq<char>)
    requires
        forall|i: int| 0 <= i < h.len() ==> h[i] != '\n',
    ensures
        lines(h + seq!['\n'] + t) == seq![strip_cr(h)] + lines(t),
{
    let q = h + seq!['\n'] + t;
    let k = h.len() as int;
    assert(q[k] == '\n');
    assert forall|j: int| 0 <= j < k implies q[j] != '\n' by {
        assert(q[j] == h[j]);
    }
    assert(is_first(q, '\n', k));
    lemma_first_index_is(q, '\n', k);
    assert(q.take(k) =~= h);
    assert(q.skip(k + 1) =~= t);
}

/// Appends `c` to `s` with `String::push`, which std documents as appending
/// the given char to the end of the string.
#[verifier::external_body]
fn push_char(s: &mut String, c: char)
    ensures
        final(s)@ == old(s)@.push(c),
{
    s.push(c);
}

/// A `String` holding `s[lo..hi]`.
pub fn string_from_range(s: &Vec<char>, lo: usize, hi: usize) -> (r: String)
    requires
        lo <= hi <= s@.len(),
    ensures
        r@ == s@.subrange(lo as int, hi as int),
{
    let mut out = String::new();
    let mut i = lo;
    while i < hi
        invariant
            lo <= i <= hi <= s@.len(),
            out@ == s@.subrange(lo as int, i as int),
        decreases hi - i,
    {
        push_char(&mut out, s[i]);
        assert(s@.subrange(lo as int, i + 1) =~= s@.subrange(lo as int, i as int).push(s@[i as int]));
        i = i + 1;
    }
    out
}

} // verus!
