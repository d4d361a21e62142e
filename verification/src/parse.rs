//! Reading texts: trimming, splitting, decimal numbers.
use vstd::prelude::*;

verus! {

/// The characters that Unicode counts as white space.
pub open spec fn is_white(c: char) -> bool {
    let u = c as u32;
    ||| 0x9 <= u <= 0xd
    ||| u == 0x20
    ||| u == 0x85
    ||| u == 0xa0
    ||| u == 0x1680
    ||| 0x2000 <= u <= 0x200a
    ||| u == 0x2028
    ||| u == 0x2029
    ||| u == 0x202f
    ||| u == 0x205f
    ||| u == 0x3000
}

fn white(c: char) -> (r: bool)
    ensures
        r == is_white(c),
{
    let u: u32 = c as u32;
    (0x9 <= u && u <= 0xd) || u == 0x20 || u == 0x85 || u == 0xa0 || u == 0x1680 || (0x2000 <= u
        && u <= 0x200a) || u == 0x2028 || u == 0x2029 || u == 0x202f || u == 0x205f || u == 0x3000
}

/// The number of leading characters that are white space.
pub open spec fn white_prefix(s: Seq<char>) -> int
    decreases s.len(),
{
    if s.len() > 0 && is_white(s[0]) {
        1 + white_prefix(s.drop_first())
    } else {
        0
    }
}

/// The number of trailing characters that are white space.
pub open spec fn white_suffix(s: Seq<char>) -> int
    decreases s.len(),
{
    if s.len() > 0 && is_white(s.last()) {
        1 + white_suffix(s.drop_last())
    } else {
        0
    }
}

/// The text without leading and trailing white space.
pub open spec fn trimmed(s: Seq<char>) -> Seq<char> {
    let t = s.skip(white_prefix(s));
    t.take(t.len() - white_suffix(t))
}

/// The characters of a text.
pub fn chars_of(s: &str) -> (r: Vec<char>)
    ensures
        r@ == s@,
{
    let n = s.unicode_len();
    let mut r: Vec<char> = Vec::new();
    for i in 0..n
        invariant
            n == s@.len(),
            r@ == s@.take(i as int),
    {
        r.push(s.get_char(i));
        assert(s@.take(i as int).push(s@[i as int]) =~= s@.take(i + 1));
    }
    assert(s@.take(n as int) =~= s@);
    r
}

pub proof fn lemma_white_prefix(s: Seq<char>, k: int)
    requires
        0 <= k <= s.len(),
        forall|i: int| 0 <= i < k ==> is_white(#[trigger] s[i]),
        k < s.len() ==> !is_white(s[k]),
    ensures
        white_prefix(s) == k,
    decreases s.len(),
{
    if k > 0 {
        let r = s.drop_first();
        assert forall|i: int| 0 <= i < k - 1 implies is_white(#[trigger] r[i]) by {
            assert(r[i] == s[i + 1]);
        }
        assert(is_white(s[0]));
        lemma_white_prefix(r, k - 1);
    }
}

pub proof fn lemma_white_suffix(s: Seq<char>, k: int)
    requires
        0 <= k <= s.len(),
        forall|i: int| s.len() - k <= i < s.len() ==> is_white(#[trigger] s[i]),
        k < s.len() ==> !is_white(s[s.len() - k - 1]),
    ensures
        white_suffix(s) == k,
    decreases s.len(),
{
    if k > 0 {
        let r = s.drop_last();
        assert forall|i: int| r.len() - (k - 1) <= i < r.len() implies is_white(#[trigger] r[i]) by {
            assert(r[i] == s[i]);
        }
        assert(is_white(s[s.len() - 1]));
        if k < s.len() {
            assert(r[r.len() - (k - 1) - 1] == s[s.len() - k - 1]);
        }
        lemma_white_suffix(r, k - 1);
    }
}

/// Strips white space from both ends.
pub fn trim(s: &str) -> (r: &str)
    ensures
        r@ == trimmed(s@),
{
    let chars = chars_of(s);
    let n = chars.len();
    let mut from: usize = 0;
    while from < n && white(chars[from])
        invariant
            n == chars.len(),
            chars@ == s@,
            from <= n,
            forall|i: int| 0 <= i < from ==> is_white(#[trigger] s@[i]),
        decreases n - from,
    {
        from = from + 1;
    }
    proof {
        lemma_white_prefix(s@, from as int);
    }
    let ghost t = s@.skip(from as int);
    let mut to: usize = n;
    while to > from && white(chars[to - 1])
        invariant
            n == chars.len(),
            chars@ == s@,
            from <= to <= n,
            forall|i: int| to <= i < n ==> is_white(#[trigger] s@[i]),
        decreases to,
    {
        to = to - 1;
    }
    proof {
        assert forall|i: int| t.len() - (n - to) <= i < t.len() implies is_white(
            #[trigger] t[i],
        ) by {
            assert(t[i] == s@[from + i]);
        }
        lemma_white_suffix(t, n - to);
        assert(trimmed(s@) =~= s@.subrange(from as int, to as int));
    }
    s.substring_char(from, to)
}

/// The text without trailing white space.
pub open spec fn trimmed_end(s: Seq<char>) -> Seq<char> {
    s.take(s.len() - white_suffix(s))
}

/// Strips white space from the end.
pub fn trim_end(s: &str) -> (r: &str)
    ensures
        r@ == trimmed_end(s@),
{
    let chars = chars_of(s);
    let n = chars.len();
    let mut to: usize = n;
    while to > 0 && white(chars[to - 1])
        invariant
            n == chars.len(),
            chars@ == s@,
            to <= n,
            forall|i: int| to <= i < n ==> is_white(#[trigger] s@[i]),
        decreases to,
    {
        to = to - 1;
    }
    proof {
        lemma_white_suffix(s@, n - to);
        assert(trimmed_end(s@) =~= s@.subrange(0, to as int));
    }
    s.substring_char(0, to)
}

/// The number of leading characters that are no white space.
pub open spec fn black_prefix(s: Seq<char>) -> int
    decreases s.len(),
{
    if s.len() > 0 && !is_white(s[0]) {
        1 + black_prefix(s.drop_first())
    } else {
        0
    }
}

pub proof fn lemma_black_prefix(s: Seq<char>, k: int)
    requires
        0 <= k <= s.len(),
        forall|i: int| 0 <= i < k ==> !is_white(#[trigger] s[i]),
        k < s.len() ==> is_white(s[k]),
    ensures
        black_prefix(s) == k,
    decreases s.len(),
{
    if k > 0 {
        let r = s.drop_first();
        assert forall|i: int| 0 <= i < k - 1 implies !is_white(#[trigger] r[i]) by {
            assert(r[i] == s[i + 1]);
        }
        assert(!is_white(s[0]));
        lemma_black_prefix(r, k - 1);
    }
}

/// The first run of characters that are no white space; empty where there is none.
pub open spec fn word(s: Seq<char>) -> Seq<char> {
    let t = s.skip(white_prefix(s));
    t.take(black_prefix(t))
}

/// What follows the first word.
pub open spec fn after_word(s: Seq<char>) -> Seq<char> {
    let t = s.skip(white_prefix(s));
    t.skip(black_prefix(t))
}

/// The first word, and what follows it.
pub fn next_word(s: &str) -> (r: (&str, &str))
    ensures
        r.0@ == word(s@),
        r.1@ == after_word(s@),
{
    let chars = chars_of(s);
    let n = chars.len();
    let mut from: usize = 0;
    while from < n && white(chars[from])
        invariant
            n == chars.len(),
            chars@ == s@,
            from <= n,
            forall|i: int| 0 <= i < from ==> is_white(#[trigger] s@[i]),
        decreases n - from,
    {
        from = from + 1;
    }
    proof {
        lemma_white_prefix(s@, from as int);
    }
    let ghost t = s@.skip(from as int);
    let mut to: usize = from;
    while to < n && !white(chars[to])
        invariant
            n == chars.len(),
            chars@ == s@,
            from <= to <= n,
            forall|i: int| from <= i < to ==> !is_white(#[trigger] s@[i]),
        decreases n - to,
    {
        to = to + 1;
    }
    proof {
        assert forall|i: int| 0 <= i < to - from implies !is_white(#[trigger] t[i]) by {
            assert(t[i] == s@[from + i]);
        }
        lemma_black_prefix(t, to - from);
        assert(word(s@) =~= s@.subrange(from as int, to as int));
        assert(after_word(s@) =~= s@.subrange(to as int, n as int));
    }
    (s.substring_char(from, to), s.substring_char(to, n))
}

/// The first place of a character, or the length where it does not occur.
pub open spec fn position(s: Seq<char>, c: char) -> int
    decreases s.len(),
{
    if s.len() == 0 || s[0] == c {
        0
    } else {
        1 + position(s.drop_first(), c)
    }
}

pub proof fn lemma_position(s: Seq<char>, c: char, k: int)
    requires
        0 <= k <= s.len(),
        forall|i: int| 0 <= i < k ==> #[trigger] s[i] != c,
        k < s.len() ==> s[k] == c,
    ensures
        position(s, c) == k,
    decreases s.len(),
{
    if k > 0 {
        let r = s.drop_first();
        assert forall|i: int| 0 <= i < k - 1 implies #[trigger] r[i] != c by {
            assert(r[i] == s[i + 1]);
        }
        assert(s[0] != c);
        lemma_position(r, c, k - 1);
    }
}

/// Finds the first place of a character.
pub fn find(s: &str, c: char) -> (r: usize)
    ensures
        r == position(s@, c),
        r <= s@.len(),
{
    let chars = chars_of(s);
    let mut i: usize = 0;
    while i < chars.len() && chars[i] != c
        invariant
            chars@ == s@,
            i <= chars.len(),
            forall|k: int| 0 <= k < i ==> #[trigger] s@[k] != c,
        decreases chars.len() - i,
    {
        i = i + 1;
    }
    proof {
        lemma_position(s@, c, i as int);
    }
    i
}

/// The pieces of a text between occurrences of a separator.
pub open spec fn pieces(s: Seq<char>, sep: char) -> Seq<Seq<char>>
    decreases s.len(),
{
    let k = position(s, sep);
    if 0 <= k < s.len() {
        seq![s.take(k)] + pieces(s.skip(k + 1), sep)
    } else {
        seq![s]
    }
}

/// The views of a sequence of texts.
pub open spec fn views(s: Seq<String>) -> Seq<Seq<char>> {
    s.map_values(|t: String| t@)
}

/// Splits a text at every occurrence of a separator.
pub fn split(s: &str, sep: char) -> (r: Vec<String>)
    ensures
        views(r@) == pieces(s@, sep),
{
    let mut r: Vec<String> = Vec::new();
    let mut rest = s;
    loop
        invariant_except_break
            views(r@) + pieces(rest@, sep) == pieces(s@, sep),
        ensures
            views(r@) == pieces(s@, sep),
        decreases rest@.len(),
    {
        let n = rest.unicode_len();
        let k = find(rest, sep);
        if k < n {
            let ghost before = views(r@);
            let head = rest.substring_char(0, k);
            let ghost tail = pieces(rest@.skip(k + 1), sep);
            proof {
                assert(rest@.subrange(0, k as int) =~= rest@.take(k as int));
                assert(rest@.subrange(k + 1, n as int) =~= rest@.skip(k + 1));
            }
            r.push(head.to_owned());
            rest = rest.substring_char(k + 1, n);
            proof {
                assert(views(r@) =~= before.push(head@));
                assert(before + (seq![head@] + tail) =~= views(r@) + tail);
            }
        } else {
            let ghost before = views(r@);
            r.push(rest.to_owned());
            assert(views(r@) =~= before + seq![rest@]);
            break;
        }
    }
    r
}

/// The value of a decimal digit.
pub open spec fn digit_value(c: char) -> int {
    c as int - '0' as int
}

/// The number that decimal digits write.
pub open spec fn digits_value(s: Seq<char>) -> int
    decreases s.len(),
{
    if s.len() == 0 {
        0
    } else {
        digits_value(s.drop_last()) * 10 + digit_value(s.last())
    }
}

/// Every character is a decimal digit.
pub open spec fn all_digits(s: Seq<char>) -> bool {
    forall|i: int| 0 <= i < s.len() ==> '0' <= #[trigger] s[i] && s[i] <= '9'
}

/// The number that a text writes: decimal digits, at least one, with a plus sign before them or
/// not, of a value of at most `max`.
pub open spec fn number(s: Seq<char>, max: int) -> Option<int> {
    let d = if s.len() > 0 && s[0] == '+' {
        s.drop_first()
    } else {
        s
    };
    if d.len() > 0 && all_digits(d) && digits_value(d) <= max {
        Some(digits_value(d))
    } else {
        None
    }
}

pub proof fn lemma_digits_value(s: Seq<char>, k: int)
    requires
        all_digits(s),
        0 <= k <= s.len(),
    ensures
        0 <= digits_value(s.take(k)) <= digits_value(s),
    decreases s.len(),
{
    if k < s.len() {
        let r = s.drop_last();
        assert(r.take(k) =~= s.take(k));
        assert forall|i: int| 0 <= i < r.len() implies '0' <= #[trigger] r[i] && r[i] <= '9' by {
            assert(r[i] == s[i]);
        }
        lemma_digits_value(r, k);
        assert('0' <= s[s.len() - 1]);
    } else {
        assert(s.take(k) =~= s);
        if s.len() > 0 {
            let r = s.drop_last();
            assert forall|i: int| 0 <= i < r.len() implies '0' <= #[trigger] r[i] && r[i] <= '9' by {
                assert(r[i] == s[i]);
            }
            lemma_digits_value(r, r.len() as int);
            assert(r.take(r.len() as int) =~= r);
            assert('0' <= s[s.len() - 1]);
        }
    }
}

/// Reads a number of at most `max`.
pub fn read_number(s: &str, max: u64) -> (r: Option<u64>)
    ensures
        match r {
            Some(v) => number(s@, max as int) == Some(v as int),
            None => number(s@, max as int) is None,
        },
{
    let chars = chars_of(s);
    let n = chars.len();
    let start: usize = if n > 0 && chars[0] == '+' {
        1
    } else {
        0
    };
    let ghost d = s@.skip(start as int);
    assert(start == 1 ==> d =~= s@.drop_first());
    assert(start == 0 ==> d =~= s@);
    if start == n {
        return None;
    }
    let mut acc: u64 = 0;
    let mut i: usize = start;
    assert(d.take(0).len() == 0);
    while i < n
        invariant
            n == chars.len(),
            chars@ == s@,
            start <= i <= n,
            start < n,
            d == s@.skip(start as int),
            number(s@, max as int) == (if d.len() > 0 && all_digits(d) && digits_value(d) <= max {
                Some(digits_value(d))
            } else {
                None
            }),
            forall|k: int| 0 <= k < i - start ==> '0' <= #[trigger] d[k] && d[k] <= '9',
            acc == digits_value(d.take(i - start)),
            acc <= max,
        decreases n - i,
    {
        let c = chars[i];
        assert(d[i - start] == c);
        if c < '0' || c > '9' {
            return None;
        }
        let v: u64 = c as u64 - '0' as u64;
        let ghost k = i - start;
        proof {
            assert(d.take(k + 1).drop_last() =~= d.take(k));
            assert(d.take(k + 1).last() == c);
        }
        if v > max || acc > max / 10 || acc * 10 > max - v {
            proof {
                assert(digits_value(d.take(k + 1)) > max);
                if all_digits(d) {
                    lemma_digits_value(d, k + 1);
                }
            }
            return None;
        }
        acc = acc * 10 + v;
        i = i + 1;
    }
    assert(d.take(d.len() as int) =~= d);
    Some(acc)
}

} // verus!
