//! What the texts say: numbers, bytes, lists, and how they are taken apart again.
use crate::parse::{
    after_word, all_digits, digits_value, is_white, lemma_black_prefix, lemma_position,
    lemma_white_prefix, lemma_white_suffix, number, pieces, position, trimmed, trimmed_end, word,
};
use crate::text::{
    bytes_text, decimal, hex, hex_all, hex_text, joined, joined_upto, kib_tenths, numbers_text,
};
use vstd::prelude::*;

verus! {

/// All characters are white space.
pub open spec fn blank(s: Seq<char>) -> bool {
    forall|i: int| 0 <= i < s.len() ==> is_white(#[trigger] s[i])
}

/// No character is white space.
pub open spec fn solid(s: Seq<char>) -> bool {
    forall|i: int| 0 <= i < s.len() ==> !is_white(#[trigger] s[i])
}

/// A character does not occur in a text.
pub open spec fn free_of(s: Seq<char>, c: char) -> bool {
    forall|i: int| 0 <= i < s.len() ==> #[trigger] s[i] != c
}

/// Among the ASCII characters the blank and the five controls from tab to carriage return are white
/// space.
pub proof fn law_ascii_white(c: char)
    requires
        (c as u32) < 0x80,
    ensures
        is_white(c) <==> c == ' ' || '\t' <= c <= '\r',
{
}

/// Beyond ASCII white space are the next line and the no-break space, the Ogham space mark, the spaces
/// of the general punctuation with its two separators, and the ideographic space.
pub proof fn law_other_white(c: char)
    requires
        (c as u32) >= 0x80,
    ensures
        is_white(c) <==> c == '\u{85}' || c == '\u{a0}' || c == '\u{1680}' || '\u{2000}' <= c
            <= '\u{200a}' || c == '\u{2028}' || c == '\u{2029}' || c == '\u{202f}' || c == '\u{205f}'
            || c == '\u{3000}',
{
}

/// Trimming takes away the white space at both ends, all of it, and nothing else.
pub proof fn law_trimmed(before: Seq<char>, s: Seq<char>, after: Seq<char>)
    requires
        blank(before),
        blank(after),
        s.len() > 0 ==> !is_white(s[0]) && !is_white(s.last()),
    ensures
        trimmed(before + s + after) == s,
{
    let all = before + s + after;
    if s.len() > 0 {
        assert forall|i: int| 0 <= i < before.len() implies is_white(#[trigger] all[i]) by {
            assert(all[i] == before[i]);
        }
        assert(all[before.len() as int] == s[0]);
        lemma_white_prefix(all, before.len() as int);
        let t = all.skip(before.len() as int);
        assert(t =~= s + after);
        assert forall|i: int| t.len() - after.len() <= i < t.len() implies is_white(
            #[trigger] t[i],
        ) by {
            assert(t[i] == after[i - s.len()]);
        }
        assert(t[t.len() - after.len() - 1] == s.last());
        lemma_white_suffix(t, after.len() as int);
        assert(trimmed(all) =~= s);
    } else {
        assert forall|i: int| 0 <= i < all.len() implies is_white(#[trigger] all[i]) by {
            if i < before.len() {
                assert(all[i] == before[i]);
            } else {
                assert(all[i] == after[i - before.len()]);
            }
        }
        lemma_white_prefix(all, all.len() as int);
        let t = all.skip(all.len() as int);
        lemma_white_suffix(t, 0);
        assert(trimmed(all) =~= s);
    }
}

/// Trimming the end takes away the white space there, all of it, and nothing else.
pub proof fn law_trimmed_end(s: Seq<char>, after: Seq<char>)
    requires
        blank(after),
        s.len() > 0 ==> !is_white(s.last()),
    ensures
        trimmed_end(s + after) == s,
{
    let all = s + after;
    assert forall|i: int| all.len() - after.len() <= i < all.len() implies is_white(
        #[trigger] all[i],
    ) by {
        assert(all[i] == after[i - s.len()]);
    }
    if s.len() > 0 {
        assert(all[all.len() - after.len() - 1] == s.last());
    }
    lemma_white_suffix(all, after.len() as int);
    assert(trimmed_end(all) =~= s);
}

/// The first word stands behind leading white space and ends where white space follows; what comes
/// then is the rest.
pub proof fn law_word(before: Seq<char>, w: Seq<char>, rest: Seq<char>)
    requires
        blank(before),
        solid(w),
        w.len() > 0 || rest.len() == 0,
        rest.len() > 0 ==> is_white(rest[0]),
    ensures
        word(before + w + rest) == w,
        after_word(before + w + rest) == rest,
{
    let all = before + w + rest;
    assert forall|i: int| 0 <= i < before.len() implies is_white(#[trigger] all[i]) by {
        assert(all[i] == before[i]);
    }
    if w.len() > 0 {
        assert(all[before.len() as int] == w[0]);
    }
    lemma_white_prefix(all, before.len() as int);
    let t = all.skip(before.len() as int);
    assert(t =~= w + rest);
    assert forall|i: int| 0 <= i < w.len() implies !is_white(#[trigger] t[i]) by {
        assert(t[i] == w[i]);
    }
    if rest.len() > 0 {
        assert(t[w.len() as int] == rest[0]);
    }
    lemma_black_prefix(t, w.len() as int);
    assert(word(all) =~= w);
    assert(after_word(all) =~= rest);
}

/// The place of a character is the first at which it stands.
pub proof fn law_position(before: Seq<char>, c: char, after: Seq<char>)
    requires
        free_of(before, c),
    ensures
        position(before, c) == before.len(),
        position(before + seq![c] + after, c) == before.len(),
{
    let all = before + seq![c] + after;
    assert forall|i: int| 0 <= i < before.len() implies #[trigger] all[i] != c by {
        assert(all[i] == before[i]);
    }
    lemma_position(all, c, before.len() as int);
    lemma_position(before, c, before.len() as int);
}

proof fn lemma_position_found(s: Seq<char>, c: char)
    ensures
        0 <= position(s, c) <= s.len(),
        position(s, c) < s.len() ==> s[position(s, c)] == c,
        free_of(s.take(position(s, c)), c),
    decreases s.len(),
{
    if s.len() > 0 && s[0] != c {
        let r = s.drop_first();
        lemma_position_found(r, c);
        let k = position(r, c);
        if k < r.len() {
            assert(s[k + 1] == r[k]);
        }
        assert forall|i: int| 0 <= i < k + 1 implies #[trigger] s.take(k + 1)[i] != c by {
            if i > 0 {
                assert(s.take(k + 1)[i] == r.take(k)[i - 1]);
            }
        }
    }
}

proof fn lemma_joined_prefix(a: Seq<Seq<char>>, b: Seq<Seq<char>>, sep: Seq<char>, n: int)
    requires
        n <= a.len(),
        n <= b.len(),
        forall|i: int| 0 <= i < n ==> #[trigger] a[i] == b[i],
    ensures
        joined_upto(a, sep, n) == joined_upto(b, sep, n),
    decreases n,
{
    if n > 1 {
        lemma_joined_prefix(a, b, sep, n - 1);
    }
}

/// Joining nothing gives nothing, joining one text gives that text, and each further text is put
/// behind a separator.
pub proof fn law_joined(parts: Seq<Seq<char>>, sep: Seq<char>, last: Seq<char>)
    ensures
        joined(Seq::empty(), sep) == Seq::<char>::empty(),
        joined(seq![last], sep) == last,
        parts.len() > 0 ==> joined(parts.push(last), sep) == joined(parts, sep) + sep + last,
{
    if parts.len() > 0 {
        lemma_joined_prefix(parts.push(last), parts, sep, parts.len() as int);
    }
}

proof fn lemma_joined_front(parts: Seq<Seq<char>>, sep: Seq<char>)
    requires
        parts.len() >= 2,
    ensures
        joined(parts, sep) == parts[0] + sep + joined(parts.drop_first(), sep),
    decreases parts.len(),
{
    let rest = parts.drop_first();
    law_joined(parts.drop_last(), sep, parts.last());
    assert(parts.drop_last().push(parts.last()) =~= parts);
    if parts.len() == 2 {
        assert(parts.drop_last() =~= seq![parts[0]]);
        assert(rest =~= seq![parts[1]]);
        law_joined(rest, sep, parts[0]);
        law_joined(rest, sep, parts[1]);
    } else {
        lemma_joined_front(parts.drop_last(), sep);
        assert(parts.drop_last().drop_first() =~= rest.drop_last());
        law_joined(rest.drop_last(), sep, rest.last());
        assert(rest.drop_last().push(rest.last()) =~= rest);
        let middle = joined(rest.drop_last(), sep);
        assert(parts[0] + sep + middle + sep + parts.last() =~= parts[0] + sep + (middle + sep
            + parts.last()));
    }
}

/// Texts that hold no separator, joined by it, are what splitting at it gives back.
pub proof fn law_split_of_joined(parts: Seq<Seq<char>>, sep: char)
    requires
        parts.len() > 0,
        forall|i: int| 0 <= i < parts.len() ==> free_of(#[trigger] parts[i], sep),
    ensures
        pieces(joined(parts, seq![sep]), sep) == parts,
    decreases parts.len(),
{
    let all = joined(parts, seq![sep]);
    assert(free_of(parts[0], sep));
    if parts.len() == 1 {
        law_joined(parts, seq![sep], parts[0]);
        assert(parts =~= seq![parts[0]]);
        law_position(all, sep, Seq::empty());
        assert(pieces(all, sep) =~= parts);
    } else {
        let rest = parts.drop_first();
        lemma_joined_front(parts, seq![sep]);
        law_position(parts[0], sep, joined(rest, seq![sep]));
        assert(all.take(parts[0].len() as int) =~= parts[0]);
        assert(all.skip(parts[0].len() as int + 1) =~= joined(rest, seq![sep]));
        assert forall|i: int| 0 <= i < rest.len() implies free_of(#[trigger] rest[i], sep) by {
            assert(rest[i] == parts[i + 1]);
        }
        law_split_of_joined(rest, sep);
        assert(pieces(all, sep) =~= parts);
    }
}

/// The pieces of a text hold no separator, and joined by it they are the text.
pub proof fn law_joined_of_split(s: Seq<char>, sep: char)
    ensures
        pieces(s, sep).len() > 0,
        forall|i: int| 0 <= i < pieces(s, sep).len() ==> free_of(#[trigger] pieces(s, sep)[i], sep),
        joined(pieces(s, sep), seq![sep]) == s,
    decreases s.len(),
{
    lemma_position_found(s, sep);
    let k = position(s, sep);
    if k < s.len() {
        let rest = s.skip(k + 1);
        law_joined_of_split(rest, sep);
        let ps = pieces(s, sep);
        assert(ps.drop_first() =~= pieces(rest, sep));
        lemma_joined_front(ps, seq![sep]);
        assert(s =~= s.take(k) + seq![sep] + rest);
        assert forall|i: int| 0 <= i < ps.len() implies free_of(#[trigger] ps[i], sep) by {
            if i > 0 {
                assert(ps[i] == pieces(rest, sep)[i - 1]);
            }
        }
    } else {
        assert(s.take(k) =~= s);
        law_joined(Seq::empty(), seq![sep], s);
    }
}

/// The decimal notation of a number below ten is its digit, and a digit more at the end makes ten
/// times the number and the digit.
pub proof fn law_decimal_digits(n: nat, d: nat)
    requires
        d < 10,
    ensures
        decimal(d) == seq![(0x30 + d) as char],
        n > 0 ==> decimal(10 * n + d) == decimal(n).push((0x30 + d) as char),
{
    if n > 0 {
        assert((10 * n + d) / 10 == n);
        assert((10 * n + d) % 10 == d);
    }
}

pub proof fn lemma_decimal(n: nat)
    ensures
        decimal(n).len() > 0,
        all_digits(decimal(n)),
        digits_value(decimal(n)) == n,
        n > 0 ==> decimal(n)[0] != '0',
    decreases n,
{
    let s = decimal(n);
    if n >= 10 {
        lemma_decimal(n / 10);
        assert(s.drop_last() =~= decimal(n / 10));
        assert forall|i: int| 0 <= i < s.len() implies '0' <= #[trigger] s[i] && s[i] <= '9' by {
            if i < s.len() - 1 {
                assert(s[i] == decimal(n / 10)[i]);
            }
        }
        assert(s[0] == decimal(n / 10)[0]);
    } else {
        assert(s.drop_last().len() == 0);
        assert(digits_value(s.drop_last()) == 0);
        assert(s.last() == s[0]);
    }
}

/// A number's decimal notation reads back as the number, wherever it is within the bound; it has no
/// leading zero.
pub proof fn law_number_reads_decimal(n: nat, max: int)
    ensures
        n <= max ==> number(decimal(n), max) == Some(n as int),
        n > max ==> number(decimal(n), max) is None,
        n > 0 ==> decimal(n)[0] != '0',
{
    lemma_decimal(n);
    assert('0' <= decimal(n)[0]);
}

/// Different numbers have different decimal notations.
pub proof fn law_decimal_tells_apart(a: nat, b: nat)
    requires
        decimal(a) == decimal(b),
    ensures
        a == b,
{
    lemma_decimal(a);
    lemma_decimal(b);
}

/// A number is read digit by digit, the most significant first.
pub proof fn law_number_digits(s: Seq<char>, d: nat, max: int)
    requires
        d < 10,
        number(s, max) is Some,
        10 * number(s, max)->0 + d <= max,
    ensures
        number(seq![(0x30 + d) as char], max) == Some(d as int),
        number(s.push((0x30 + d) as char), max) == Some(10 * number(s, max)->0 + d),
{
    let c = (0x30 + d) as char;
    let one = seq![c];
    assert(one.drop_last().len() == 0);
    assert(digits_value(one.drop_last()) == 0);
    assert(one.last() == c);
    assert(digits_value(one) == d);
    assert(all_digits(one));
    let plus = s[0] == '+';
    let before = if plus {
        s.drop_first()
    } else {
        s
    };
    crate::parse::lemma_digits_value(before, 0);
    let after = before.push(c);
    assert(plus ==> s.push(c).drop_first() =~= after);
    assert(after.drop_last() =~= before);
    assert forall|i: int| 0 <= i < after.len() implies '0' <= #[trigger] after[i] && after[i]
        <= '9' by {
        if i < before.len() {
            assert(after[i] == before[i]);
        }
    }
    assert(s.push(c)[0] == s[0]);
}

/// What is no digit, but for a plus sign in front, makes a text no number; so do a missing digit and
/// a value above the bound.
pub proof fn law_no_number(s: Seq<char>, max: int, i: int)
    ensures
        s.len() == 0 ==> number(s, max) is None,
        s == seq!['+'] ==> number(s, max) is None,
        0 <= i < s.len() && !('0' <= s[i] <= '9') && (i > 0 || s[i] != '+') ==> number(
            s,
            max,
        ) is None,
        number(s, max) is Some ==> number(s, max)->0 <= max,
        s.len() > 0 && s[0] != '+' ==> number(seq!['+'] + s, max) == number(s, max),
{
    if 0 <= i < s.len() && !('0' <= s[i] <= '9') && (i > 0 || s[i] != '+') {
        if s[0] == '+' {
            assert(s.drop_first()[i - 1] == s[i]);
        }
    }
    if s.len() > 0 && s[0] != '+' {
        assert((seq!['+'] + s).drop_first() =~= s);
    }
}

/// A text never reads as a negative number.
pub proof fn law_number_nonnegative(s: Seq<char>, max: int)
    ensures
        number(s, max) is Some ==> number(s, max)->0 >= 0,
{
    if number(s, max) is Some {
        let d = if s[0] == '+' {
            s.drop_first()
        } else {
            s
        };
        crate::parse::lemma_digits_value(d, 0);
    }
}

/// A character is the lower-case hexadecimal digit of a value.
pub open spec fn is_nibble(c: char, v: int) -> bool {
    ||| v < 10 && c as int == 0x30 + v
    ||| 10 <= v < 16 && c as int == 0x61 + v - 10
}

/// The bytes in hexadecimal have two digits each, the upper half first.
pub proof fn law_hex(bytes: Seq<u8>)
    ensures
        hex_all(bytes).len() == 2 * bytes.len(),
        forall|i: int|
            0 <= i < bytes.len() ==> is_nibble(
                hex_all(bytes)[2 * i],
                #[trigger] bytes[i] as int / 16,
            ) && is_nibble(hex_all(bytes)[2 * i + 1], bytes[i] as int % 16),
    decreases bytes.len(),
{
    if bytes.len() > 0 {
        let rest = bytes.drop_last();
        law_hex(rest);
        let all = hex_all(bytes);
        assert forall|i: int| 0 <= i < bytes.len() implies is_nibble(
            all[2 * i],
            #[trigger] bytes[i] as int / 16,
        ) && is_nibble(all[2 * i + 1], bytes[i] as int % 16) by {
            if i < rest.len() {
                assert(rest[i] == bytes[i]);
                assert(all[2 * i] == hex_all(rest)[2 * i]);
                assert(all[2 * i + 1] == hex_all(rest)[2 * i + 1]);
            } else {
                assert(all[2 * i] == hex(bytes[i])[0]);
                assert(all[2 * i + 1] == hex(bytes[i])[1]);
            }
        }
    }
}

/// A displayed encoding starts with `0x`. It shows every byte of at most twelve, and of more the
/// first eight and, behind an ellipsis, the last four. Then the number of bytes follows.
pub proof fn law_hex_text(bytes: Seq<u8>)
    ensures
        ({
            let n = bytes.len() as int;
            let text = hex_text(bytes);
            let tail = " ("@ + decimal(bytes.len()) + " B)"@;
            let shown: int = if n <= 12 {
                2 * n
            } else {
                25
            };
            &&& text.len() == 2 + shown + tail.len()
            &&& text[0] == '0' && text[1] == 'x'
            &&& text.skip(2 + shown) == tail
            &&& forall|i: int|
                0 <= i < n && (n <= 12 || i < 8) ==> is_nibble(
                    text[2 + 2 * i],
                    #[trigger] bytes[i] as int / 16,
                ) && is_nibble(text[3 + 2 * i], bytes[i] as int % 16)
            &&& n > 12 ==> text[18] == '…'
            &&& n > 12 ==> forall|i: int|
                n - 4 <= i < n ==> is_nibble(
                    text[19 + 2 * (i - (n - 4))],
                    #[trigger] bytes[i] as int / 16,
                ) && is_nibble(text[20 + 2 * (i - (n - 4))], bytes[i] as int % 16)
        }),
{
    reveal_strlit("0x");
    reveal_strlit("…");
    let n = bytes.len() as int;
    let text = hex_text(bytes);
    let tail = " ("@ + decimal(bytes.len()) + " B)"@;
    if n <= 12 {
        law_hex(bytes);
        assert(text =~= "0x"@ + hex_all(bytes) + tail);
        assert forall|i: int| 0 <= i < n implies is_nibble(
            text[2 + 2 * i],
            #[trigger] bytes[i] as int / 16,
        ) && is_nibble(text[3 + 2 * i], bytes[i] as int % 16) by {
            assert(text[2 + 2 * i] == hex_all(bytes)[2 * i]);
            assert(text[3 + 2 * i] == hex_all(bytes)[2 * i + 1]);
        }
        assert(text.skip(2 + 2 * n) =~= tail);
    } else {
        let (head, end) = (bytes.subrange(0, 8), bytes.subrange(n - 4, n));
        law_hex(head);
        law_hex(end);
        assert(text =~= "0x"@ + hex_all(head) + "…"@ + hex_all(end) + tail);
        assert forall|i: int| 0 <= i < 8 implies is_nibble(
            text[2 + 2 * i],
            #[trigger] bytes[i] as int / 16,
        ) && is_nibble(text[3 + 2 * i], bytes[i] as int % 16) by {
            assert(head[i] == bytes[i]);
            assert(text[2 + 2 * i] == hex_all(head)[2 * i]);
            assert(text[3 + 2 * i] == hex_all(head)[2 * i + 1]);
        }
        assert forall|i: int| n - 4 <= i < n implies is_nibble(
            text[19 + 2 * (i - (n - 4))],
            #[trigger] bytes[i] as int / 16,
        ) && is_nibble(text[20 + 2 * (i - (n - 4))], bytes[i] as int % 16) by {
            let j = i - (n - 4);
            assert(end[j] == bytes[i]);
            assert(text[19 + 2 * j] == hex_all(end)[2 * j]);
            assert(text[20 + 2 * j] == hex_all(end)[2 * j + 1]);
        }
        assert(text.skip(27) =~= tail);
    }
}

/// Two encodings of one length that differ in a byte that is displayed have different texts.
pub proof fn law_hex_text_tells_apart(a: Seq<u8>, b: Seq<u8>, i: int)
    requires
        a.len() == b.len(),
        0 <= i < a.len(),
        a.len() <= 12 || i < 8 || i >= a.len() - 4,
        a[i] != b[i],
    ensures
        hex_text(a) != hex_text(b),
{
    law_hex_text(a);
    law_hex_text(b);
    let n = a.len() as int;
    assert(a[i] as int == (a[i] as int / 16) * 16 + a[i] as int % 16);
    assert(b[i] as int == (b[i] as int / 16) * 16 + b[i] as int % 16);
}

/// A byte count below 1024 is shown as it is, a larger one in KiB: rounded to the nearest tenth, a
/// tie to the even tenth.
pub proof fn law_bytes_text(n: nat, whole: nat, tenth: nat)
    requires
        tenth < 10,
        -512 <= 1024 * (10 * whole + tenth) - 10 * n <= 512,
        (1024 * (10 * whole + tenth) - 10 * n == 512 || 1024 * (10 * whole + tenth) - 10 * n
            == -512) ==> tenth % 2 == 0,
    ensures
        n < 1024 ==> bytes_text(n as int) == decimal(n) + " B"@,
        n >= 1024 ==> bytes_text(n as int) == decimal(whole) + "."@ + decimal(tenth) + " KiB"@,
{
    let t = 10 * whole + tenth;
    let m = n * 10;
    let (q, r) = (m / 1024, m % 1024);
    assert(m == 1024 * q + r);
    assert(kib_tenths(n as int) == t);
    assert(t / 10 == whole && t % 10 == tenth);
}

/// Numbers are listed in decimal, in the order in which they stand.
pub proof fn law_numbers_text(ids: Seq<usize>, sep: Seq<char>, last: usize)
    ensures
        numbers_text(Seq::empty(), sep) == Seq::<char>::empty(),
        numbers_text(seq![last], sep) == decimal(last as nat),
        ids.len() > 0 ==> numbers_text(ids.push(last), sep) == numbers_text(ids, sep) + sep
            + decimal(last as nat),
{
    let f = |id: usize| decimal(id as nat);
    assert(Seq::<usize>::empty().map_values(f) =~= Seq::empty());
    assert(seq![last].map_values(f) =~= seq![decimal(last as nat)]);
    assert(ids.push(last).map_values(f) =~= ids.map_values(f).push(decimal(last as nat)));
    law_joined(ids.map_values(f), sep, decimal(last as nat));
}

} // verus!
