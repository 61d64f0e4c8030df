//! Text as sequences of characters: the few pieces of `str` that the parsers
//! and path code need, each with its meaning stated over `Seq<char>`.

use vstd::prelude::*;

verus! {

/// `str::chars`, collected: the characters of `s`, in order.
pub fn chars_of(s: &str) -> (chars: Vec<char>)
    ensures
        chars@ == s@,
{
    broadcast use vstd::string::axiom_spec_iter;
    let mut v: Vec<char> = Vec::new();
    for c in it: s.chars()
        invariant
            v@.len() == it.index(),
            forall|i: int| 0 <= i < v@.len() ==> v@[i] == it.seq()[i],
            it.seq() == s@,
    {
        v.push(c);
    }
    assert(v@ =~= s@);
    v
}

/// `String: FromIterator<&char>`: the string made of `chars`, in order.
#[verifier::external_body]
pub(crate) fn string_of(chars: &[char]) -> (s: String)
    ensures
        s@ == chars@,
{
    String::from_iter(chars)
}

/// `p` is a prefix of `s`.
pub open spec fn has_prefix(s: Seq<char>, p: Seq<char>) -> bool {
    p.len() <= s.len() && s.take(p.len() as int) == p
}

/// `p` is a suffix of `s`.
pub open spec fn has_suffix(s: Seq<char>, p: Seq<char>) -> bool {
    p.len() <= s.len() && s.skip(s.len() - p.len()) == p
}

/// `needle` occurs in `s` starting at index `i`.
pub open spec fn occurs_at(s: Seq<char>, needle: Seq<char>, i: int) -> bool {
    0 <= i && i + needle.len() <= s.len() && s.subrange(i, i + needle.len()) == needle
}

/// `needle` occurs somewhere in `s`.
pub open spec fn has_infix(s: Seq<char>, needle: Seq<char>) -> bool {
    exists|i: int| occurs_at(s, needle, i)
}

/// `str::starts_with`.
pub fn starts_with(s: &[char], p: &[char]) -> (r: bool)
    ensures
        r == has_prefix(s@, p@),
{
    if p.len() > s.len() {
        return false;
    }
    let mut i: usize = 0;
    while i < p.len()
        invariant
            p@.len() <= s@.len(),
            i <= p@.len(),
            forall|j: int| 0 <= j < i ==> s@[j] == p@[j],
        decreases p.len() - i,
    {
        if s[i] != p[i] {
            assert(s@.take(p@.len() as int)[i as int] != p@[i as int]);
            return false;
        }
        i += 1;
    }
    assert(s@.take(p@.len() as int) =~= p@);
    true
}

/// `str::ends_with`.
pub fn ends_with(s: &[char], p: &[char]) -> (r: bool)
    ensures
        r == has_suffix(s@, p@),
{
    if p.len() > s.len() {
        return false;
    }
    let offset = s.len() - p.len();
    let mut i: usize = 0;
    while i < p.len()
        invariant
            offset + p@.len() == s@.len(),
            i <= p@.len(),
            forall|j: int| 0 <= j < i ==> s@[offset + j] == p@[j],
        decreases p.len() - i,
    {
        let n = s.len();
        assert(offset + i < n);
        if s[offset + i] != p[i] {
            assert(s@.skip(offset as int)[i as int] != p@[i as int]);
            return false;
        }
        i += 1;
    }
    assert(s@.skip(offset as int) =~= p@);
    true
}

/// Whether `needle` occurs in `s` at `i`.
pub fn matches_at(s: &[char], needle: &[char], i: usize) -> (r: bool)
    requires
        i <= s@.len(),
    ensures
        r == occurs_at(s@, needle@, i as int),
{
    if needle.len() > s.len() - i {
        return false;
    }
    let mut k: usize = 0;
    while k < needle.len()
        invariant
            i + needle@.len() <= s@.len(),
            k <= needle@.len(),
            forall|j: int| 0 <= j < k ==> s@[i + j] == needle@[j],
        decreases needle.len() - k,
    {
        let n = s.len();
        assert(i + k < n);
        if s[i + k] != needle[k] {
            assert(s@.subrange(i as int, i + needle@.len())[k as int] != needle@[k as int]);
            return false;
        }
        k += 1;
    }
    assert(s@.subrange(i as int, i + needle@.len()) =~= needle@);
    true
}

/// `str::contains` with a string pattern.
pub fn contains(s: &[char], needle: &[char]) -> (r: bool)
    ensures
        r == has_infix(s@, needle@),
{
    let mut i: usize = 0;
    loop
        invariant
            i <= s@.len(),
            forall|j: int| 0 <= j < i ==> !occurs_at(s@, needle@, j),
        decreases s.len() - i,
    {
        if matches_at(s, needle, i) {
            return true;
        }
        if i == s.len() {
            assert forall|j: int| !occurs_at(s@, needle@, j) by {
                if 0 <= j && j <= s@.len() {
                }
            }
            return false;
        }
        i += 1;
    }
}

/// `char::is_whitespace`: the Unicode `White_Space` property.
pub open spec fn is_white(c: char) -> bool {
    ||| c == ' '
    ||| ('\t' <= c && c <= '\r')
    ||| c == '\u{85}'
    ||| c == '\u{a0}'
    ||| c == '\u{1680}'
    ||| ('\u{2000}' <= c && c <= '\u{200a}')
    ||| c == '\u{2028}'
    ||| c == '\u{2029}'
    ||| c == '\u{202f}'
    ||| c == '\u{205f}'
    ||| c == '\u{3000}'
}

/// Exec form of [`is_white`].
pub fn is_whitespace(c: char) -> (r: bool)
    ensures
        r == is_white(c),
{
    c == ' ' || ('\t' <= c && c <= '\r') || c == '\u{85}' || c == '\u{a0}' || c == '\u{1680}'
        || ('\u{2000}' <= c && c <= '\u{200a}') || c == '\u{2028}' || c == '\u{2029}' || c
        == '\u{202f}' || c == '\u{205f}' || c == '\u{3000}'
}

/// Number of leading characters of `s` for which `keep` holds.
pub open spec fn leading(s: Seq<char>, keep: spec_fn(char) -> bool) -> nat
    decreases s.len(),
{
    if s.len() > 0 && keep(s[0]) {
        1 + leading(s.drop_first(), keep)
    } else {
        0
    }
}

/// Number of trailing characters of `s` for which `keep` holds.
pub open spec fn trailing(s: Seq<char>, keep: spec_fn(char) -> bool) -> nat
    decreases s.len(),
{
    if s.len() > 0 && keep(s.last()) {
        1 + trailing(s.drop_last(), keep)
    } else {
        0
    }
}

proof fn lemma_leading(s: Seq<char>, keep: spec_fn(char) -> bool, n: int)
    requires
        0 <= n <= s.len(),
        forall|j: int| 0 <= j < n ==> keep(s[j]),
        n == s.len() || !keep(s[n]),
    ensures
        leading(s, keep) == n,
    decreases n,
{
    if n > 0 {
        lemma_leading(s.drop_first(), keep, n - 1);
    }
}

proof fn lemma_trailing(s: Seq<char>, keep: spec_fn(char) -> bool, n: int)
    requires
        0 <= n <= s.len(),
        forall|j: int| s.len() - n <= j < s.len() ==> keep(s[j]),
        n == s.len() || !keep(s[s.len() - n - 1]),
    ensures
        trailing(s, keep) == n,
    decreases n,
{
    if n > 0 {
        lemma_trailing(s.drop_last(), keep, n - 1);
    }
}

/// `str::trim_start`.
pub open spec fn trim_start(s: Seq<char>) -> Seq<char> {
    s.skip(leading(s, |c: char| is_white(c)) as int)
}

/// `str::trim_end`.
pub open spec fn trim_end(s: Seq<char>) -> Seq<char> {
    s.take(s.len() - trailing(s, |c: char| is_white(c)))
}

/// `str::trim`.
pub open spec fn trim(s: Seq<char>) -> Seq<char> {
    trim_end(trim_start(s))
}

pub proof fn lemma_leading_bound(s: Seq<char>, keep: spec_fn(char) -> bool)
    ensures
        leading(s, keep) <= s.len(),
    decreases s.len(),
{
    if s.len() > 0 {
        lemma_leading_bound(s.drop_first(), keep);
    }
}

pub proof fn lemma_trailing_bound(s: Seq<char>, keep: spec_fn(char) -> bool)
    ensures
        trailing(s, keep) <= s.len(),
    decreases s.len(),
{
    if s.len() > 0 {
        lemma_trailing_bound(s.drop_last(), keep);
    }
}

/// Index of the first character of `s` that is not whitespace, or its length.
pub fn trim_start_index(s: &[char]) -> (n: usize)
    ensures
        n == leading(s@, |c: char| is_white(c)),
        n <= s@.len(),
{
    let mut n: usize = 0;
    while n < s.len() && is_whitespace(s[n])
        invariant
            n <= s@.len(),
            forall|j: int| 0 <= j < n ==> is_white(s@[j]),
        decreases s.len() - n,
    {
        n += 1;
    }
    proof {
        lemma_leading(s@, |c: char| is_white(c), n as int);
    }
    n
}

/// Index just past the last character of `s` that is not whitespace, or 0.
pub fn trim_end_index(s: &[char]) -> (n: usize)
    ensures
        n == s@.len() - trailing(s@, |c: char| is_white(c)),
        n <= s@.len(),
{
    let mut n: usize = s.len();
    while n > 0 && is_whitespace(s[n - 1])
        invariant
            n <= s@.len(),
            forall|j: int| n <= j < s@.len() ==> is_white(s@[j]),
        decreases n,
    {
        n -= 1;
    }
    proof {
        lemma_trailing(s@, |c: char| is_white(c), s@.len() - n);
    }
    n
}

/// `str::trim`, as the bounds of the part kept.
pub fn trim_bounds(s: &[char]) -> (r: (usize, usize))
    ensures
        r.0 <= r.1 <= s@.len(),
        s@.subrange(r.0 as int, r.1 as int) == trim(s@),
{
    let start = trim_start_index(s);
    let rest = &s[start..s.len()];
    let end = trim_end_index(rest);
    proof {
        assert(rest@ == s@.skip(start as int));
        assert(trim_start(s@) == rest@);
        assert(s@.subrange(start as int, start + end) =~= rest@.take(end as int));
    }
    (start, start + end)
}

/// `str::trim`, copied out.
pub fn trimmed(s: &[char]) -> (r: Vec<char>)
    ensures
        r@ == trim(s@),
{
    let (a, b) = trim_bounds(s);
    vstd::slice::slice_to_vec(&s[a..b])
}

/// Index of the first `c` in `s`, or the length of `s` when there is none.
pub open spec fn index_of(s: Seq<char>, c: char) -> int
    decreases s.len(),
{
    if s.len() == 0 {
        0
    } else if s[0] == c {
        0
    } else {
        1 + index_of(s.drop_first(), c)
    }
}

pub proof fn lemma_index_of(s: Seq<char>, c: char, n: int)
    requires
        0 <= n <= s.len(),
        forall|j: int| 0 <= j < n ==> s[j] != c,
        n == s.len() || s[n] == c,
    ensures
        index_of(s, c) == n,
    decreases n,
{
    if n > 0 {
        lemma_index_of(s.drop_first(), c, n - 1);
    }
}

pub proof fn lemma_index_of_bound(s: Seq<char>, c: char)
    ensures
        0 <= index_of(s, c) <= s.len(),
        index_of(s, c) < s.len() ==> s[index_of(s, c)] == c,
        forall|j: int| 0 <= j < index_of(s, c) ==> s[j] != c,
    decreases s.len(),
{
    if s.len() > 0 && s[0] != c {
        lemma_index_of_bound(s.drop_first(), c);
        assert forall|j: int| 0 <= j < index_of(s, c) implies s[j] != c by {
            if j > 0 {
                assert(s[j] == s.drop_first()[j - 1]);
            }
        }
    }
}

/// Exec form of [`index_of`], starting the search at `from`.
pub fn find_char_from(s: &[char], c: char, from: usize) -> (i: usize)
    requires
        from <= s@.len(),
    ensures
        i == from + index_of(s@.skip(from as int), c),
        from <= i <= s@.len(),
{
    let mut i = from;
    while i < s.len() && s[i] != c
        invariant
            from <= i <= s@.len(),
            forall|j: int| from <= j < i ==> s@[j] != c,
        decreases s.len() - i,
    {
        i += 1;
    }
    proof {
        lemma_index_of(s@.skip(from as int), c, i - from);
    }
    i
}

/// A line as `str::lines` gives it: the text before a line feed, less one
/// carriage return right before that line feed.
pub open spec fn strip_cr(line: Seq<char>) -> Seq<char> {
    if line.len() > 0 && line.last() == '\r' {
        line.drop_last()
    } else {
        line
    }
}

/// `str::lines`: split at each line feed; a carriage return before a line feed
/// goes with it; a final line feed ends the last line rather than starting an
/// empty one.
pub open spec fn lines_of(s: Seq<char>) -> Seq<Seq<char>>
    decreases s.len(),
{
    if s.len() == 0 {
        seq![]
    } else {
        let i = index_of(s, '\n');
        proof {
            lemma_index_of_bound(s, '\n');
        }
        if i < s.len() {
            seq![strip_cr(s.take(i))] + lines_of(s.skip(i + 1))
        } else {
            seq![s]
        }
    }
}

proof fn lemma_lines_step(s: Seq<char>)
    requires
        s.len() > 0,
    ensures
        ({
            let i = index_of(s, '\n');
            &&& 0 <= i <= s.len()
            &&& i < s.len() ==> lines_of(s) == seq![strip_cr(s.take(i))] + lines_of(s.skip(i + 1))
            &&& i == s.len() ==> lines_of(s) == seq![s]
        }),
{
    lemma_index_of_bound(s, '\n');
}

/// The texts held by a vector of character vectors.
pub open spec fn views(v: Seq<Vec<char>>) -> Seq<Seq<char>> {
    v.map_values(|l: Vec<char>| l@)
}

/// `str::lines`.
pub fn lines(s: &[char]) -> (r: Vec<Vec<char>>)
    ensures
        views(r@) == lines_of(s@),
{
    let mut r: Vec<Vec<char>> = Vec::new();
    let mut start: usize = 0;
    let ghost done: Seq<Seq<char>> = seq![];
    assert(s@.skip(0) =~= s@);
    while start < s.len()
        invariant
            start <= s@.len(),
            done + lines_of(s@.skip(start as int)) == lines_of(s@),
            r@.len() == done.len(),
            forall|k: int| 0 <= k < r@.len() ==> #[trigger] r@[k]@ == done[k],
        decreases s.len() - start,
    {
        let ghost rest = s@.skip(start as int);
        let end = find_char_from(s, '\n', start);
        proof {
            lemma_lines_step(rest);
        }
        if end < s.len() {
            let mut line_end = end;
            if line_end > start && s[line_end - 1] == '\r' {
                line_end = line_end - 1;
            }
            let line = vstd::slice::slice_to_vec(&s[start..line_end]);
            proof {
                assert(rest.take(end - start) =~= s@.subrange(start as int, end as int));
                assert(line@ =~= strip_cr(rest.take(end - start)));
                assert(rest.skip(end - start + 1) =~= s@.skip(end + 1));
                done = done.push(line@);
                assert(done + lines_of(s@.skip(end + 1)) =~= (done.drop_last() + lines_of(rest)));
            }
            r.push(line);
            start = end + 1;
        } else {
            let line = vstd::slice::slice_to_vec(&s[start..s.len()]);
            proof {
                assert(line@ =~= rest);
                done = done.push(line@);
                assert(s@.skip(s@.len() as int) =~= Seq::<char>::empty());
                assert(done + lines_of(s@.skip(s@.len() as int)) =~= done.drop_last() + lines_of(rest));
            }
            r.push(line);
            start = s.len();
        }
    }
    proof {
        assert(s@.skip(start as int) =~= Seq::<char>::empty());
        assert(done =~= lines_of(s@));
        assert(views(r@) =~= done);
    }
    r
}


/// Index of the last `c` in `s`, or -1 when there is none.
pub open spec fn last_index_of(s: Seq<char>, c: char) -> int
    decreases s.len(),
{
    if s.len() == 0 {
        -1
    } else if s.last() == c {
        s.len() - 1
    } else {
        last_index_of(s.drop_last(), c)
    }
}

pub proof fn lemma_last_index_of(s: Seq<char>, c: char)
    ensures
        -1 <= last_index_of(s, c) < s.len(),
        last_index_of(s, c) >= 0 ==> s[last_index_of(s, c)] == c,
        forall|j: int| last_index_of(s, c) < j < s.len() ==> s[j] != c,
    decreases s.len(),
{
    if s.len() > 0 && s.last() != c {
        lemma_last_index_of(s.drop_last(), c);
        assert forall|j: int| last_index_of(s, c) < j < s.len() implies s[j] != c by {
            if j < s.len() - 1 {
                assert(s[j] == s.drop_last()[j]);
            }
        }
    }
}

/// `s.split(c).last()`: what follows the last `c`, or all of `s`.
pub open spec fn after_last(s: Seq<char>, c: char) -> Seq<char> {
    s.skip(last_index_of(s, c) + 1)
}

/// `s.split(c).next()`: what precedes the first `c`, or all of `s`.
pub open spec fn before_first(s: Seq<char>, c: char) -> Seq<char> {
    s.take(index_of(s, c))
}

/// Exec form of [`after_last`].
pub fn after_last_char(s: &[char], c: char) -> (r: Vec<char>)
    ensures
        r@ == after_last(s@, c),
{
    let mut i: usize = s.len();
    while i > 0 && s[i - 1] != c
        invariant
            i <= s@.len(),
            forall|j: int| i <= j < s@.len() ==> s@[j] != c,
        decreases i,
    {
        i -= 1;
    }
    proof {
        lemma_last_index_of(s@, c);
        let l = last_index_of(s@, c);
        if i > 0 {
            assert(s@[i - 1] == c);
            assert(l == i - 1);
        } else {
            assert(l == -1);
        }
    }
    vstd::slice::slice_to_vec(&s[i..s.len()])
}

/// Exec form of [`before_first`].
pub fn before_first_char(s: &[char], c: char) -> (r: Vec<char>)
    ensures
        r@ == before_first(s@, c),
{
    let i = find_char_from(s, c, 0);
    assert(s@.skip(0) =~= s@);
    vstd::slice::slice_to_vec(&s[0..i])
}

/// `s` with every `c` taken out (`str::replace(c, "")`).
pub open spec fn without(s: Seq<char>, c: char) -> Seq<char> {
    s.filter(|x: char| x != c)
}

/// Exec form of [`without`].
pub fn remove_char(s: &[char], c: char) -> (r: Vec<char>)
    ensures
        r@ == without(s@, c),
{
    let mut r: Vec<char> = Vec::new();
    let mut i: usize = 0;
    while i < s.len()
        invariant
            i <= s@.len(),
            r@ == without(s@.take(i as int), c),
        decreases s.len() - i,
    {
        proof {
            reveal_with_fuel(Seq::filter, 1);
            assert(s@.take(i + 1).drop_last() =~= s@.take(i as int));
        }
        if s[i] != c {
            r.push(s[i]);
        }
        i += 1;
    }
    assert(s@.take(s@.len() as int) =~= s@);
    r
}

/// Value of `c` as a digit in base 10 or 16, if it is one.
pub open spec fn digit_of(c: char, radix: nat) -> Option<nat> {
    if '0' <= c && c <= '9' {
        Some((c as nat - '0' as nat) as nat)
    } else if radix == 16 && 'a' <= c && c <= 'f' {
        Some((c as nat - 'a' as nat + 10) as nat)
    } else if radix == 16 && 'A' <= c && c <= 'F' {
        Some((c as nat - 'A' as nat + 10) as nat)
    } else {
        None
    }
}

/// Every character of `s` is a digit.
pub open spec fn all_digits(s: Seq<char>, radix: nat) -> bool {
    forall|i: int| 0 <= i < s.len() ==> (#[trigger] digit_of(s[i], radix)) is Some
}

/// The number `s` spells, most significant digit first.
pub open spec fn number_of(s: Seq<char>, radix: nat) -> nat
    decreases s.len(),
{
    if s.len() == 0 {
        0
    } else {
        number_of(s.drop_last(), radix) * radix + digit_of(s.last(), radix).unwrap_or(0)
    }
}

/// What `u64::from_str_radix` accepts: an optional `+`, then one or more
/// digits, naming a number that fits.
pub open spec fn parse_unsigned(s: Seq<char>, radix: nat) -> Option<u64> {
    let t = if s.len() > 0 && s[0] == '+' { s.drop_first() } else { s };
    if t.len() > 0 && all_digits(t, radix) && number_of(t, radix) <= u64::MAX {
        Some(number_of(t, radix) as u64)
    } else {
        None
    }
}

proof fn lemma_number_grows(s: Seq<char>, k: int, radix: nat)
    requires
        0 <= k <= s.len(),
        radix >= 1,
    ensures
        number_of(s.take(k), radix) <= number_of(s, radix),
    decreases s.len() - k,
{
    if k < s.len() {
        lemma_number_grows(s, k + 1, radix);
        assert(s.take(k + 1).drop_last() =~= s.take(k));
        let a = number_of(s.take(k), radix);
        assert(a * radix >= a) by (nonlinear_arith)
            requires radix >= 1;
    } else {
        assert(s.take(k) =~= s);
    }
}

/// `u64::from_str_radix` for base 10 or 16.
pub fn parse_u64(s: &[char], radix: u64) -> (r: Option<u64>)
    requires
        radix == 10 || radix == 16,
    ensures
        r == parse_unsigned(s@, radix as nat),
{
    let ghost r_nat = radix as nat;
    let start: usize = if s.len() > 0 && s[0] == '+' { 1 } else { 0 };
    let ghost t = if s@.len() > 0 && s@[0] == '+' { s@.drop_first() } else { s@ };
    assert(t =~= s@.skip(start as int));
    if start == s.len() {
        return None;
    }
    let mut acc: u64 = 0;
    let mut i: usize = start;
    while i < s.len()
        invariant
            start <= i <= s@.len(),
            radix == 10 || radix == 16,
            r_nat == radix as nat,
            t == s@.skip(start as int),
            t == (if s@.len() > 0 && s@[0] == '+' { s@.drop_first() } else { s@ }),
            t.len() > 0,
            all_digits(t.take(i - start), r_nat),
            acc as nat == number_of(t.take(i - start), r_nat),
        decreases s.len() - i,
    {
        let c = s[i];
        let d: u64 = if '0' <= c && c <= '9' {
            (c as u32 - '0' as u32) as u64
        } else if radix == 16 && 'a' <= c && c <= 'f' {
            (c as u32 - 'a' as u32 + 10) as u64
        } else if radix == 16 && 'A' <= c && c <= 'F' {
            (c as u32 - 'A' as u32 + 10) as u64
        } else {
            assert(digit_of(t[i - start], r_nat) is None);
            assert(!all_digits(t, r_nat));
            return None;
        };
        proof {
            assert(t.take(i - start + 1).drop_last() =~= t.take(i - start));
            assert(t.take(i - start + 1).last() == c);
            assert(digit_of(c, r_nat) == Some(d as nat));
            assert forall|j: int| 0 <= j < t.take(i - start + 1).len() implies (#[trigger] digit_of(
                t.take(i - start + 1)[j],
                r_nat,
            )) is Some by {
                if j < i - start {
                    assert(t.take(i - start + 1)[j] == t.take(i - start)[j]);
                }
            }
        }
        if acc > (u64::MAX - d) / radix {
            proof {
                assert(acc * radix + d > u64::MAX) by (nonlinear_arith)
                    requires
                        acc > (u64::MAX - d) as int / radix as int,
                        radix >= 1,
                        d <= u64::MAX,
                ;
                assert(number_of(t.take(i - start + 1), r_nat) == acc * radix + d);
                lemma_number_grows(t, i - start + 1, r_nat);
                assert(number_of(t, r_nat) > u64::MAX);
            }
            return None;
        }
        proof {
            assert(acc * radix + d <= u64::MAX) by (nonlinear_arith)
                requires
                    acc <= (u64::MAX - d) as int / radix as int,
                    radix >= 1,
                    d <= u64::MAX,
            ;
        }
        acc = acc * radix + d;
        i += 1;
    }
    assert(t.take(i - start) =~= t);
    Some(acc)
}

/// `char::to_ascii_lowercase`.
pub open spec fn lower_char(c: char) -> char {
    if 'A' <= c && c <= 'Z' {
        ((c as u32) + 32) as char
    } else {
        c
    }
}

/// `str::to_ascii_lowercase`.
pub open spec fn lower(s: Seq<char>) -> Seq<char> {
    s.map_values(|c: char| lower_char(c))
}

/// Exec form of [`lower_char`].
pub fn lower_ascii(c: char) -> (r: char)
    ensures
        r == lower_char(c),
{
    if 'A' <= c && c <= 'Z' {
        ((c as u8) + 32) as char
    } else {
        c
    }
}

/// Exec form of [`lower`].
pub fn to_lower(s: &[char]) -> (r: Vec<char>)
    ensures
        r@ == lower(s@),
{
    let mut r: Vec<char> = Vec::new();
    let mut i: usize = 0;
    while i < s.len()
        invariant
            i <= s@.len(),
            r@ =~= lower(s@.take(i as int)),
        decreases s.len() - i,
    {
        r.push(lower_ascii(s[i]));
        i += 1;
    }
    assert(s@.take(s@.len() as int) =~= s@);
    r
}

/// Whether two character sequences are equal.
pub fn same(a: &[char], b: &[char]) -> (r: bool)
    ensures
        r == (a@ == b@),
{
    if a.len() != b.len() {
        return false;
    }
    let mut i: usize = 0;
    while i < a.len()
        invariant
            a@.len() == b@.len(),
            i <= a@.len(),
            forall|j: int| 0 <= j < i ==> a@[j] == b@[j],
        decreases a.len() - i,
    {
        if a[i] != b[i] {
            return false;
        }
        i += 1;
    }
    assert(a@ =~= b@);
    true
}


/// The texts of a vector of strings.
pub open spec fn strings(v: Seq<String>) -> Seq<Seq<char>> {
    v.map_values(|s: String| s@)
}

/// `l.join(sep)` for a one-character separator.
pub open spec fn joined(l: Seq<Seq<char>>, sep: char) -> Seq<char>
    decreases l.len(),
{
    if l.len() == 0 {
        seq![]
    } else if l.len() == 1 {
        l[0]
    } else {
        l[0] + seq![sep] + joined(l.drop_first(), sep)
    }
}

/// Exec form of [`joined`].
pub fn join_with(l: &Vec<String>, sep: char) -> (r: Vec<char>)
    ensures
        r@ == joined(strings(l@), sep),
{
    let n = l.len();
    if n == 0 {
        let r: Vec<char> = Vec::new();
        assert(r@ =~= joined(strings(l@), sep));
        return r;
    }
    let mut r = chars_of(l[n - 1].as_str());
    let mut i: usize = n - 1;
    proof {
        assert(strings(l@).skip(n - 1) =~= seq![l@[n - 1]@]);
    }
    while i > 0
        invariant
            i < n,
            n == l@.len(),
            r@ == joined(strings(l@).skip(i as int), sep),
        decreases i,
    {
        let mut piece = chars_of(l[i - 1].as_str());
        piece.push(sep);
        let mut k: usize = 0;
        let ghost base = piece@;
        while k < r.len()
            invariant
                k <= r@.len(),
                piece@ == base + r@.take(k as int),
            decreases r.len() - k,
        {
            piece.push(r[k]);
            k += 1;
            assert(piece@ =~= base + r@.take(k as int));
        }
        proof {
            assert(r@.take(r@.len() as int) =~= r@);
            let t = strings(l@).skip(i - 1);
            assert(t.drop_first() =~= strings(l@).skip(i as int));
            assert(t[0] == l@[i - 1]@);
        }
        r = piece;
        i -= 1;
    }
    assert(strings(l@).skip(0) =~= strings(l@));
    r
}

/// `s.replace(pat, rep)`: every occurrence of `pat`, scanning from the left
/// without overlaps, replaced by `rep`.
pub open spec fn replaced(s: Seq<char>, pat: Seq<char>, rep: Seq<char>) -> Seq<char>
    recommends
        pat.len() > 0,
    decreases s.len(),
{
    if s.len() == 0 || pat.len() == 0 {
        s
    } else if has_prefix(s, pat) {
        rep + replaced(s.skip(pat.len() as int), pat, rep)
    } else {
        seq![s[0]] + replaced(s.drop_first(), pat, rep)
    }
}

/// Exec form of [`replaced`].
pub fn replace_all(s: &[char], pat: &[char], rep: &[char]) -> (r: Vec<char>)
    requires
        pat@.len() > 0,
    ensures
        r@ == replaced(s@, pat@, rep@),
{
    let mut r: Vec<char> = Vec::new();
    let mut i: usize = 0;
    assert(s@.skip(0) =~= s@);
    while i < s.len()
        invariant
            i <= s@.len(),
            pat@.len() > 0,
            r@ + replaced(s@.skip(i as int), pat@, rep@) == replaced(s@, pat@, rep@),
        decreases s.len() - i,
    {
        let ghost rest = s@.skip(i as int);
        if matches_at(s, pat, i) {
            proof {
                assert(rest.take(pat@.len() as int) =~= s@.subrange(i as int, i + pat@.len()));
                assert(rest.skip(pat@.len() as int) =~= s@.skip(i + pat@.len()));
            }
            let mut k: usize = 0;
            let ghost base = r@;
            while k < rep.len()
                invariant
                    k <= rep@.len(),
                    r@ == base + rep@.take(k as int),
                decreases rep.len() - k,
            {
                r.push(rep[k]);
                k += 1;
                assert(r@ =~= base + rep@.take(k as int));
            }
            assert(rep@.take(rep@.len() as int) =~= rep@);
            assert(r@ + replaced(s@.skip(i + pat@.len()), pat@, rep@) =~= base + replaced(rest, pat@, rep@));
            i = i + pat.len();
        } else {
            proof {
                assert(!has_prefix(rest, pat@)) by {
                    if has_prefix(rest, pat@) {
                        assert(rest.take(pat@.len() as int) =~= s@.subrange(i as int, i + pat@.len()));
                    }
                }
                assert(rest.drop_first() =~= s@.skip(i + 1));
                assert(rest[0] == s@[i as int]);
            }
            let ghost base = r@;
            r.push(s[i]);
            assert(r@ + replaced(s@.skip(i + 1), pat@, rep@) =~= base + replaced(rest, pat@, rep@));
            i += 1;
        }
    }
    assert(s@.skip(i as int) =~= Seq::<char>::empty());
    assert(r@ + Seq::<char>::empty() =~= r@);
    r
}

} // verus!
