//! Character-level text utilities shared by the parsers: classifying
//! characters, trimming, splitting, and reading decimal numbers.

use vstd::prelude::*;
use vstd::string::*;

verus! {

/// Copies the characters of a string slice into a vector.
pub fn chars_of(s: &str) -> (r: Vec<char>)
    ensures
        r@ == s@,
{
    let n = s.unicode_len();
    let mut v: Vec<char> = Vec::new();
    let mut i: usize = 0;
    while i < n
        invariant
            n == s@.len(),
            0 <= i <= n,
            v@ == s@.take(i as int),
        decreases n - i,
    {
        let c = s.get_char(i);
        v.push(c);
        assert(s@.take(i + 1) =~= s@.take(i as int).push(s@[i as int]));
        i = i + 1;
    }
    assert(s@.take(n as int) =~= s@);
    v
}

/// The whitespace characters that are trimmed around tokens.
pub open spec fn spec_is_space(c: char) -> bool {
    c == ' ' || c == '\t' || c == '\n' || c == '\r'
}

pub fn is_space(c: char) -> (r: bool)
    ensures
        r == spec_is_space(c),
{
    c == ' ' || c == '\t' || c == '\n' || c == '\r'
}

pub open spec fn trim_left(s: Seq<char>) -> Seq<char>
    decreases s.len(),
{
    if s.len() > 0 && spec_is_space(s[0]) {
        trim_left(s.drop_first())
    } else {
        s
    }
}

pub open spec fn trim_right(s: Seq<char>) -> Seq<char>
    decreases s.len(),
{
    if s.len() > 0 && spec_is_space(s.last()) {
        trim_right(s.drop_last())
    } else {
        s
    }
}

/// A string with leading and trailing whitespace removed.
pub open spec fn spec_trim(s: Seq<char>) -> Seq<char> {
    trim_right(trim_left(s))
}

pub proof fn lemma_trim_left_skip(s: Seq<char>, i: int)
    requires
        0 <= i <= s.len(),
        forall|j: int| 0 <= j < i ==> spec_is_space(#[trigger] s[j]),
        i == s.len() || !spec_is_space(s[i]),
    ensures
        trim_left(s) == s.skip(i),
    decreases i,
{
    if i == 0 {
        assert(s.skip(0) =~= s);
    } else {
        assert(spec_is_space(s[0]));
        let t = s.drop_first();
        assert(forall|j: int| 0 <= j < i - 1 ==> spec_is_space(#[trigger] t[j]));
        lemma_trim_left_skip(t, i - 1);
        assert(t.skip(i - 1) =~= s.skip(i));
    }
}

pub proof fn lemma_trim_right_take(s: Seq<char>, i: int)
    requires
        0 <= i <= s.len(),
        forall|j: int| i <= j < s.len() ==> spec_is_space(#[trigger] s[j]),
        i == 0 || !spec_is_space(s[i - 1]),
    ensures
        trim_right(s) == s.take(i),
    decreases s.len() - i,
{
    if i == s.len() {
        assert(s.take(i) =~= s);
    } else {
        assert(spec_is_space(s.last()));
        let t = s.drop_last();
        lemma_trim_right_take(t, i);
        assert(t.take(i) =~= s.take(i));
    }
}

/// Copies the characters at positions `from..to`.
pub fn subrange_vec(v: &Vec<char>, from: usize, to: usize) -> (r: Vec<char>)
    requires
        from <= to <= v@.len(),
    ensures
        r@ == v@.subrange(from as int, to as int),
{
    let mut r: Vec<char> = Vec::new();
    let mut i: usize = from;
    while i < to
        invariant
            from <= i <= to <= v@.len(),
            r@ == v@.subrange(from as int, i as int),
        decreases to - i,
    {
        r.push(v[i]);
        assert(v@.subrange(from as int, i + 1) =~= v@.subrange(from as int, i as int).push(
            v@[i as int],
        ));
        i = i + 1;
    }
    r
}

/// Removes leading and trailing whitespace.
pub fn trim_chars(v: &Vec<char>) -> (r: Vec<char>)
    ensures
        r@ == spec_trim(v@),
{
    let n = v.len();
    let mut lo: usize = 0;
    while lo < n && is_space(v[lo])
        invariant
            0 <= lo <= n,
            n == v@.len(),
            forall|j: int| 0 <= j < lo ==> spec_is_space(#[trigger] v@[j]),
        decreases n - lo,
    {
        lo = lo + 1;
    }
    proof {
        lemma_trim_left_skip(v@, lo as int);
    }
    let mut hi: usize = n;
    while hi > lo && is_space(v[hi - 1])
        invariant
            lo <= hi <= n,
            n == v@.len(),
            forall|j: int| hi <= j < n ==> spec_is_space(#[trigger] v@[j]),
        decreases hi,
    {
        hi = hi - 1;
    }
    proof {
        let t = v@.skip(lo as int);
        assert(forall|j: int| hi - lo <= j < t.len() ==> spec_is_space(#[trigger] t[j]));
        lemma_trim_right_take(t, hi - lo);
        assert(t.take(hi - lo) =~= v@.subrange(lo as int, hi as int));
    }
    subrange_vec(v, lo, hi)
}

/// Index of the first occurrence of `sep`, or -1 when it does not occur.
pub open spec fn find_char(s: Seq<char>, sep: char) -> int
    decreases s.len(),
{
    if s.len() == 0 {
        -1
    } else if s[0] == sep {
        0
    } else {
        let r = find_char(s.drop_first(), sep);
        if r < 0 {
            -1
        } else {
            r + 1
        }
    }
}

pub proof fn lemma_find_char(s: Seq<char>, sep: char)
    ensures
        find_char(s, sep) == -1 || (0 <= find_char(s, sep) < s.len()),
        find_char(s, sep) == -1 ==> forall|j: int| 0 <= j < s.len() ==> s[j] != sep,
        find_char(s, sep) >= 0 ==> s[find_char(s, sep)] == sep,
        find_char(s, sep) >= 0 ==> forall|j: int| 0 <= j < find_char(s, sep) ==> s[j] != sep,
    decreases s.len(),
{
    if s.len() == 0 {
    } else if s[0] == sep {
    } else {
        let t = s.drop_first();
        lemma_find_char(t, sep);
        let r = find_char(t, sep);
        if r >= 0 {
            assert(forall|j: int| 0 <= j < r ==> t[j] != sep);
            assert forall|j: int| 0 <= j < r + 1 implies s[j] != sep by {
                if j > 0 {
                    assert(t[j - 1] != sep);
                }
            }
        } else {
            assert forall|j: int| 0 <= j < s.len() implies s[j] != sep by {
                if j > 0 {
                    assert(t[j - 1] != sep);
                }
            }
        }
    }
}

/// The segments of `s` between occurrences of `sep`; always nonempty, and a
/// lone segment when `sep` does not occur.
pub open spec fn spec_split(s: Seq<char>, sep: char) -> Seq<Seq<char>>
    decreases s.len(),
    via spec_split_decreases
{
    let f = find_char(s, sep);
    if f < 0 {
        seq![s]
    } else {
        seq![s.take(f)] + spec_split(s.skip(f + 1), sep)
    }
}

#[via_fn]
proof fn spec_split_decreases(s: Seq<char>, sep: char) {
    lemma_find_char(s, sep);
}

pub proof fn lemma_split_no_sep(s: Seq<char>, sep: char)
    requires
        forall|j: int| 0 <= j < s.len() ==> s[j] != sep,
    ensures
        spec_split(s, sep) == seq![s],
{
    lemma_find_char(s, sep);
}

pub proof fn lemma_split_at_first(s: Seq<char>, sep: char, j: int)
    requires
        0 <= j < s.len(),
        s[j] == sep,
        forall|k: int| 0 <= k < j ==> s[k] != sep,
    ensures
        spec_split(s, sep) == seq![s.take(j)] + spec_split(s.skip(j + 1), sep),
{
    lemma_find_char(s, sep);
    let f = find_char(s, sep);
    assert(f >= 0);
    assert(f == j);
}

/// The views of a sequence of character vectors.
pub open spec fn views_of(parts: Seq<Vec<char>>) -> Seq<Seq<char>> {
    parts.map_values(|t: Vec<char>| t@)
}

/// Splits on every occurrence of `sep`; the result always has at least one
/// (possibly empty) part.
pub fn split_char(v: &Vec<char>, sep: char) -> (r: Vec<Vec<char>>)
    ensures
        views_of(r@) == spec_split(v@, sep),
        r@.len() >= 1,
{
    let mut parts: Vec<Vec<char>> = Vec::new();
    let mut start: usize = 0;
    let mut i: usize = 0;
    let n = v.len();
    proof {
        assert(v@.skip(0) =~= v@);
        assert(views_of(parts@) + spec_split(v@, sep) =~= spec_split(v@, sep));
    }
    while i < n
        invariant
            0 <= start <= i <= n,
            n == v@.len(),
            forall|k: int| start <= k < i ==> v@[k] != sep,
            spec_split(v@, sep) == views_of(parts@) + spec_split(v@.skip(start as int), sep),
        decreases n - i,
    {
        if v[i] == sep {
            let piece = subrange_vec(v, start, i);
            proof {
                let t = v@.skip(start as int);
                assert(forall|k: int| 0 <= k < i - start ==> t[k] != sep);
                assert(t[i - start] == sep);
                lemma_split_at_first(t, sep, i - start);
                assert(t.take(i - start) =~= v@.subrange(start as int, i as int));
                assert(t.skip(i - start + 1) =~= v@.skip(i + 1));
                assert(views_of(parts@.push(piece)) =~= views_of(parts@) + seq![piece@]);
                assert(views_of(parts@) + (seq![t.take(i - start)] + spec_split(
                    v@.skip(i + 1),
                    sep,
                )) =~= (views_of(parts@) + seq![t.take(i - start)]) + spec_split(
                    v@.skip(i + 1),
                    sep,
                ));
            }
            parts.push(piece);
            start = i + 1;
        }
        i = i + 1;
    }
    let piece = subrange_vec(v, start, n);
    proof {
        let t = v@.skip(start as int);
        assert(forall|k: int| 0 <= k < t.len() ==> t[k] != sep);
        lemma_split_no_sep(t, sep);
        assert(t =~= v@.subrange(start as int, n as int));
        assert(views_of(parts@.push(piece)) =~= views_of(parts@) + seq![piece@]);
    }
    parts.push(piece);
    parts
}

/// Finds the first occurrence of `c` within positions `from..to`.
pub fn find_in_range(v: &Vec<char>, c: char, from: usize, to: usize) -> (r: Option<usize>)
    requires
        from <= to <= v@.len(),
    ensures
        match r {
            Some(i) => from <= i < to && v@[i as int] == c && find_char(
                v@.subrange(from as int, to as int),
                c,
            ) == i - from,
            None => find_char(v@.subrange(from as int, to as int), c) == -1,
        },
{
    let ghost sub = v@.subrange(from as int, to as int);
    let mut i: usize = from;
    while i < to
        invariant
            from <= i <= to <= v@.len(),
            sub == v@.subrange(from as int, to as int),
            forall|j: int| from <= j < i ==> v@[j] != c,
        decreases to - i,
    {
        if v[i] == c {
            proof {
                lemma_find_char(sub, c);
                let f = find_char(sub, c);
                assert(sub[i - from] == c);
                if f == -1 {
                    assert(sub[i - from] != c);
                }
                assert(f >= 0);
                if f < i - from {
                    assert(v@[f + from] != c);
                    assert(sub[f] == c);
                }
                if f > i - from {
                    assert(sub[i - from] != c);
                }
                assert(f == i - from);
            }
            return Some(i);
        }
        i = i + 1;
    }
    proof {
        lemma_find_char(sub, c);
        let f = find_char(sub, c);
        if f >= 0 {
            assert(sub[f] == c);
            assert(v@[f + from] != c);
        }
    }
    None
}

/// Index of the first whitespace character, or -1 when there is none.
pub open spec fn find_space(s: Seq<char>) -> int
    decreases s.len(),
{
    if s.len() == 0 {
        -1
    } else if spec_is_space(s[0]) {
        0
    } else {
        let r = find_space(s.drop_first());
        if r < 0 {
            -1
        } else {
            r + 1
        }
    }
}

pub proof fn lemma_find_space(s: Seq<char>)
    ensures
        find_space(s) == -1 || (0 <= find_space(s) < s.len()),
        find_space(s) == -1 ==> forall|j: int| 0 <= j < s.len() ==> !spec_is_space(#[trigger] s[j]),
        find_space(s) >= 0 ==> spec_is_space(s[find_space(s)]),
        find_space(s) >= 0 ==> forall|j: int|
            0 <= j < find_space(s) ==> !spec_is_space(#[trigger] s[j]),
    decreases s.len(),
{
    if s.len() == 0 {
    } else if spec_is_space(s[0]) {
    } else {
        let t = s.drop_first();
        lemma_find_space(t);
        let r = find_space(t);
        if r >= 0 {
            assert forall|j: int| 0 <= j < r + 1 implies !spec_is_space(#[trigger] s[j]) by {
                if j > 0 {
                    assert(!spec_is_space(t[j - 1]));
                }
            }
        } else {
            assert forall|j: int| 0 <= j < s.len() implies !spec_is_space(#[trigger] s[j]) by {
                if j > 0 {
                    assert(!spec_is_space(t[j - 1]));
                }
            }
        }
    }
}

/// Finds the first whitespace character within positions `from..to`.
pub fn find_space_in_range(v: &Vec<char>, from: usize, to: usize) -> (r: Option<usize>)
    requires
        from <= to <= v@.len(),
    ensures
        match r {
            Some(i) => from <= i < to && spec_is_space(v@[i as int]) && find_space(
                v@.subrange(from as int, to as int),
            ) == i - from,
            None => find_space(v@.subrange(from as int, to as int)) == -1,
        },
{
    let ghost sub = v@.subrange(from as int, to as int);
    let mut i: usize = from;
    while i < to
        invariant
            from <= i <= to <= v@.len(),
            sub == v@.subrange(from as int, to as int),
            forall|j: int| from <= j < i ==> !spec_is_space(#[trigger] v@[j]),
        decreases to - i,
    {
        if is_space(v[i]) {
            proof {
                lemma_find_space(sub);
                let f = find_space(sub);
                assert(spec_is_space(sub[i - from]));
                if f == -1 {
                    assert(!spec_is_space(sub[i - from]));
                }
                assert(f >= 0);
                if f < i - from {
                    assert(!spec_is_space(v@[f + from]));
                    assert(spec_is_space(sub[f]));
                }
                if f > i - from {
                    assert(!spec_is_space(sub[i - from]));
                }
                assert(f == i - from);
            }
            return Some(i);
        }
        i = i + 1;
    }
    proof {
        lemma_find_space(sub);
        let f = find_space(sub);
        if f >= 0 {
            assert(spec_is_space(sub[f]));
            assert(!spec_is_space(v@[f + from]));
        }
    }
    None
}

/// The bounds of the whitespace-trimmed middle of positions `from..to`.
pub fn trim_bounds_range(v: &Vec<char>, from: usize, to: usize) -> (r: (usize, usize))
    requires
        from <= to <= v@.len(),
    ensures
        from <= r.0 <= r.1 <= to,
        v@.subrange(r.0 as int, r.1 as int) == spec_trim(v@.subrange(from as int, to as int)),
{
    let ghost sub = v@.subrange(from as int, to as int);
    let mut lo: usize = from;
    while lo < to && is_space(v[lo])
        invariant
            from <= lo <= to,
            to <= v@.len(),
            forall|j: int| from <= j < lo ==> spec_is_space(#[trigger] v@[j]),
        decreases to - lo,
    {
        lo = lo + 1;
    }
    proof {
        assert(forall|j: int| 0 <= j < lo - from ==> spec_is_space(#[trigger] sub[j]));
        lemma_trim_left_skip(sub, lo - from);
    }
    let mut hi: usize = to;
    while hi > lo && is_space(v[hi - 1])
        invariant
            lo <= hi <= to,
            to <= v@.len(),
            forall|j: int| hi <= j < to ==> spec_is_space(#[trigger] v@[j]),
        decreases hi,
    {
        hi = hi - 1;
    }
    proof {
        let t = sub.skip(lo - from);
        assert(forall|j: int| hi - lo <= j < t.len() ==> spec_is_space(#[trigger] t[j]));
        lemma_trim_right_take(t, hi - lo);
        assert(t.take(hi - lo) =~= v@.subrange(lo as int, hi as int));
    }
    (lo, hi)
}

/// Whether `c` occurs in `v`.
pub fn contains_char(v: &Vec<char>, c: char) -> (r: bool)
    ensures
        r == v@.contains(c),
{
    let mut i: usize = 0;
    while i < v.len()
        invariant
            0 <= i <= v@.len(),
            forall|j: int| 0 <= j < i ==> v@[j] != c,
        decreases v@.len() - i,
    {
        if v[i] == c {
            return true;
        }
        i = i + 1;
    }
    false
}

/// Character code with ASCII letters taken to lower case.
pub open spec fn lower_code(c: char) -> u32 {
    if 65 <= c as u32 && c as u32 <= 90 {
        (c as u32 + 32) as u32
    } else {
        c as u32
    }
}

/// Equality of two strings up to ASCII case.
pub open spec fn spec_eq_ignore_case(a: Seq<char>, b: Seq<char>) -> bool {
    a.len() == b.len() && forall|i: int| 0 <= i < a.len() ==> lower_code(a[i]) == lower_code(
        #[trigger] b[i],
    )
}

pub fn eq_ignore_ascii_case(a: &Vec<char>, b: &Vec<char>) -> (r: bool)
    ensures
        r == spec_eq_ignore_case(a@, b@),
{
    if a.len() != b.len() {
        return false;
    }
    let mut i: usize = 0;
    while i < a.len()
        invariant
            0 <= i <= a@.len(),
            a@.len() == b@.len(),
            forall|j: int| 0 <= j < i ==> lower_code(a@[j]) == lower_code(#[trigger] b@[j]),
        decreases a@.len() - i,
    {
        let ca = a[i] as u32;
        let cb = b[i] as u32;
        let la = if 65 <= ca && ca <= 90 {
            ca + 32
        } else {
            ca
        };
        let lb = if 65 <= cb && cb <= 90 {
            cb + 32
        } else {
            cb
        };
        if la != lb {
            return false;
        }
        i = i + 1;
    }
    true
}

/// Whether `p` is a prefix of `s`.
pub open spec fn spec_has_prefix(s: Seq<char>, p: Seq<char>) -> bool {
    p.len() <= s.len() && s.take(p.len() as int) == p
}

pub fn has_prefix(v: &Vec<char>, p: &Vec<char>) -> (r: bool)
    ensures
        r == spec_has_prefix(v@, p@),
{
    if p.len() > v.len() {
        assert(!spec_has_prefix(v@, p@));
        return false;
    }
    let mut i: usize = 0;
    while i < p.len()
        invariant
            0 <= i <= p@.len() <= v@.len(),
            forall|j: int| 0 <= j < i ==> v@[j] == p@[j],
        decreases p@.len() - i,
    {
        if v[i] != p[i] {
            assert(v@.take(p@.len() as int)[i as int] != p@[i as int]);
            return false;
        }
        i = i + 1;
    }
    assert(v@.take(p@.len() as int) =~= p@);
    true
}

/// The ten ASCII decimal digits.
pub open spec fn is_digit(c: char) -> bool {
    48 <= c as u32 && c as u32 <= 57
}

/// Numeric value of one digit character; zero for anything else.
pub open spec fn digit_val(c: char) -> nat {
    if is_digit(c) {
        (c as u32 - 48) as nat
    } else {
        0
    }
}

/// Value of a digit string, most significant digit first.
pub open spec fn decimal_val(s: Seq<char>) -> nat
    decreases s.len(),
{
    if s.len() == 0 {
        0
    } else {
        decimal_val(s.drop_last()) * 10 + digit_val(s.last())
    }
}

pub open spec fn all_digits(s: Seq<char>) -> bool {
    forall|i: int| 0 <= i < s.len() ==> is_digit(#[trigger] s[i])
}

/// The tokens that denote a `u16`: nonempty, digits only, value at most 65535.
pub open spec fn spec_parse_u16(s: Seq<char>) -> Option<u16> {
    if s.len() > 0 && all_digits(s) && decimal_val(s) <= 0xffff {
        Some(decimal_val(s) as u16)
    } else {
        None
    }
}

/// A digit string is worth at least as much as any of its prefixes.
proof fn lemma_decimal_prefix_le(s: Seq<char>, i: int)
    requires
        0 <= i <= s.len(),
    ensures
        decimal_val(s.take(i)) <= decimal_val(s),
    decreases s.len() - i,
{
    if i == s.len() {
        assert(s.take(i) =~= s);
    } else {
        assert(s.take(i + 1).drop_last() =~= s.take(i));
        assert(s.take(i + 1).last() == s[i]);
        lemma_decimal_prefix_le(s, i + 1);
    }
}

/// Reads a nonempty all-digit token as a `u16`; anything else is `None`.
pub fn parse_decimal_u16(s: &Vec<char>) -> (r: Option<u16>)
    ensures
        r == spec_parse_u16(s@),
{
    if s.len() == 0 {
        return None;
    }
    let mut acc: u32 = 0;
    let mut i: usize = 0;
    while i < s.len()
        invariant
            0 <= i <= s@.len(),
            all_digits(s@.take(i as int)),
            acc == decimal_val(s@.take(i as int)),
            acc <= 0xffff,
        decreases s@.len() - i,
    {
        let c = s[i];
        let cv = c as u32;
        if cv < 48 || cv > 57 {
            assert(!is_digit(s@[i as int]));
            return None;
        }
        let d = cv - 48;
        let next = acc * 10 + d;
        assert(s@.take(i + 1).drop_last() =~= s@.take(i as int));
        assert(s@.take(i + 1).last() == s@[i as int]);
        if next > 0xffff {
            proof {
                lemma_decimal_prefix_le(s@, i + 1);
            }
            return None;
        }
        i = i + 1;
        acc = next;
    }
    assert(s@.take(s@.len() as int) =~= s@);
    Some(acc as u16)
}

/// The character for one digit value; '0' for anything above nine.
pub open spec fn digit_char(d: nat) -> char {
    if d == 1 {
        '1'
    } else if d == 2 {
        '2'
    } else if d == 3 {
        '3'
    } else if d == 4 {
        '4'
    } else if d == 5 {
        '5'
    } else if d == 6 {
        '6'
    } else if d == 7 {
        '7'
    } else if d == 8 {
        '8'
    } else if d == 9 {
        '9'
    } else {
        '0'
    }
}

/// Decimal digits of `n`, most significant first; empty for zero.
pub open spec fn spec_digits(n: nat) -> Seq<char>
    decreases n,
{
    if n == 0 {
        Seq::empty()
    } else {
        spec_digits(n / 10).push(digit_char(n % 10))
    }
}

/// The usual decimal rendering of `n`.
pub open spec fn spec_decimal(n: nat) -> Seq<char> {
    if n == 0 {
        seq!['0']
    } else {
        spec_digits(n)
    }
}

fn digit_str(d: u8) -> (r: &'static str)
    requires
        d < 10,
    ensures
        r@ =~= seq![digit_char(d as nat)],
{
    proof {
        reveal_strlit("0");
        reveal_strlit("1");
        reveal_strlit("2");
        reveal_strlit("3");
        reveal_strlit("4");
        reveal_strlit("5");
        reveal_strlit("6");
        reveal_strlit("7");
        reveal_strlit("8");
        reveal_strlit("9");
    }
    if d == 1 {
        "1"
    } else if d == 2 {
        "2"
    } else if d == 3 {
        "3"
    } else if d == 4 {
        "4"
    } else if d == 5 {
        "5"
    } else if d == 6 {
        "6"
    } else if d == 7 {
        "7"
    } else if d == 8 {
        "8"
    } else if d == 9 {
        "9"
    } else {
        "0"
    }
}

/// Renders `n` in decimal.
pub fn decimal_string(n: u128) -> (r: String)
    ensures
        r@ == spec_decimal(n as nat),
{
    if n == 0 {
        let mut s = String::new();
        s.append(digit_str(0));
        assert(s@ =~= spec_decimal(0));
        return s;
    }
    let mut digits: Vec<u8> = Vec::new();
    let mut m = n;
    while m > 0
        invariant
            spec_digits(n as nat) =~= spec_digits(m as nat) + digits@.map_values(
                |d: u8| digit_char(d as nat),
            ).reverse(),
            forall|j: int| 0 <= j < digits@.len() ==> digits@[j] < 10,
        decreases m,
    {
        let d = (m % 10) as u8;
        proof {
            let mapped = digits@.map_values(|d: u8| digit_char(d as nat));
            let mapped2 = digits@.push(d).map_values(|d: u8| digit_char(d as nat));
            assert(mapped2 =~= mapped.push(digit_char(d as nat)));
            assert(mapped2.reverse() =~= seq![digit_char(d as nat)] + mapped.reverse());
            assert(spec_digits(m as nat) == spec_digits((m / 10) as nat).push(
                digit_char((m % 10) as nat),
            ));
            assert(spec_digits((m / 10) as nat) + mapped2.reverse() =~= spec_digits(m as nat)
                + mapped.reverse());
        }
        digits.push(d);
        m = m / 10;
    }
    let mut s = String::new();
    let mut i = digits.len();
    proof {
        let mapped = digits@.map_values(|d: u8| digit_char(d as nat));
        assert(spec_digits(n as nat) =~= mapped.reverse());
        assert(s@ =~= mapped.skip(i as int).reverse());
    }
    while i > 0
        invariant
            0 <= i <= digits@.len(),
            forall|j: int| 0 <= j < digits@.len() ==> digits@[j] < 10,
            s@ =~= digits@.map_values(|d: u8| digit_char(d as nat)).skip(i as int).reverse(),
            spec_digits(n as nat) =~= digits@.map_values(
                |d: u8| digit_char(d as nat),
            ).reverse(),
        decreases i,
    {
        i = i - 1;
        s.append(digit_str(digits[i]));
        proof {
            let mapped = digits@.map_values(|d: u8| digit_char(d as nat));
            assert(mapped.skip(i as int).reverse() =~= mapped.skip(i + 1).reverse().push(
                mapped[i as int],
            ));
        }
    }
    proof {
        let mapped = digits@.map_values(|d: u8| digit_char(d as nat));
        assert(mapped.skip(0) =~= mapped);
    }
    s
}

/// Renders `n` in decimal, padded on the left with '0' to two digits.
pub open spec fn spec_pad2(n: nat) -> Seq<char> {
    if n < 10 {
        seq!['0'] + spec_decimal(n)
    } else {
        spec_decimal(n)
    }
}

pub fn pad2_string(n: u128) -> (r: String)
    ensures
        r@ == spec_pad2(n as nat),
{
    if n < 10 {
        let mut s = String::new();
        s.append(digit_str(0));
        let rest = decimal_string(n);
        s.append(rest.as_str());
        assert(s@ =~= seq!['0'] + spec_decimal(n as nat));
        s
    } else {
        decimal_string(n)
    }
}

} // verus!
