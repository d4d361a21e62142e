//! Texts: decimal and hexadecimal numbers, byte counts.
use crate::parse::views;
use vstd::prelude::*;

verus! {

/// The character of a digit below sixteen, in lower case.
pub open spec fn digit(d: int) -> char {
    if d < 10 {
        (('0' as int) + d) as char
    } else {
        (('a' as int) + d - 10) as char
    }
}

/// The decimal notation of a number.
pub open spec fn decimal(n: nat) -> Seq<char>
    decreases n,
{
    if n < 10 {
        seq![digit(n as int)]
    } else {
        decimal(n / 10).push(digit((n % 10) as int))
    }
}

/// The two hexadecimal digits of a byte.
pub open spec fn hex(b: u8) -> Seq<char> {
    seq![digit(b as int / 16), digit(b as int % 16)]
}

/// The hexadecimal digits of a sequence of bytes.
pub open spec fn hex_all(bytes: Seq<u8>) -> Seq<char>
    decreases bytes.len(),
{
    if bytes.len() == 0 {
        Seq::empty()
    } else {
        hex_all(bytes.drop_last()) + hex(bytes.last())
    }
}

/// The text of a digit below sixteen.
fn digit_text(d: u8) -> (r: &'static str)
    requires
        d < 16,
    ensures
        r@ == seq![digit(d as int)],
{
    proof {
        reveal_strlit("0");
        reveal_strlit("1");
        reveal_strlit("2");
        reveal_strlit("3");
        reveal_strlit("4");
        reveal_strlit("5");
        reveal_strlit("6");
        reveal_strlit("7");
        reveal_strlit("8");
        reveal_strlit("9");
        reveal_strlit("a");
        reveal_strlit("b");
        reveal_strlit("c");
        reveal_strlit("d");
        reveal_strlit("e");
        reveal_strlit("f");
    }
    let r: &'static str = match d {
        0 => "0",
        1 => "1",
        2 => "2",
        3 => "3",
        4 => "4",
        5 => "5",
        6 => "6",
        7 => "7",
        8 => "8",
        9 => "9",
        10 => "a",
        11 => "b",
        12 => "c",
        13 => "d",
        14 => "e",
        _ => "f",
    };
    assert(r@ =~= seq![digit(d as int)]);
    r
}

/// The decimal notation of a 64-bit word.
pub fn dec_u64(n: u64) -> (r: String)
    ensures
        r@ == decimal(n as nat),
    decreases n,
{
    let mut r = if n < 10 {
        String::new()
    } else {
        dec_u64(n / 10)
    };
    r.append(digit_text((n % 10) as u8));
    assert(r@ =~= decimal(n as nat));
    r
}

/// The decimal notation of a word.
pub fn dec(n: usize) -> (r: String)
    ensures
        r@ == decimal(n as nat),
{
    dec_u64(n as u64)
}

/// Whether two texts are the same.
pub fn same_text(a: &str, b: &str) -> (r: bool)
    ensures
        r == (a@ == b@),
{
    let (x, y) = (a.to_owned(), b.to_owned());
    x == y
}

/// The hexadecimal digits of the bytes from `from` to before `to`.
fn hex_range(bytes: &Vec<u8>, from: usize, to: usize) -> (r: String)
    requires
        from <= to <= bytes.len(),
    ensures
        r@ == hex_all(bytes@.subrange(from as int, to as int)),
{
    let mut r = String::new();
    assert(bytes@.subrange(from as int, from as int) =~= Seq::empty());
    for i in from..to
        invariant
            from <= i <= to <= bytes.len(),
            r@ == hex_all(bytes@.subrange(from as int, i as int)),
    {
        let b = bytes[i];
        let ghost before = r@;
        r.append(digit_text(b / 16));
        r.append(digit_text(b % 16));
        proof {
            let s = bytes@.subrange(from as int, i + 1);
            assert(s.drop_last() =~= bytes@.subrange(from as int, i as int));
            assert(r@ =~= before + hex(b));
        }
    }
    r
}

/// Bytes for display, in hexadecimal with their number: up to twelve in full, of more the first eight
/// and the last four with an ellipsis between them.
pub open spec fn hex_text(bytes: Seq<u8>) -> Seq<char> {
    let n = bytes.len() as int;
    let digits = if n <= 12 {
        hex_all(bytes)
    } else {
        hex_all(bytes.subrange(0, 8)) + "…"@ + hex_all(bytes.subrange(n - 4, n))
    };
    "0x"@ + digits + " ("@ + decimal(n as nat) + " B)"@
}

/// Renders an encoding for display.
pub fn hexs(bytes: &Vec<u8>) -> (r: String)
    ensures
        r@ == hex_text(bytes@),
{
    let n = bytes.len();
    let mut digits = String::new();
    if n <= 12 {
        digits.append(hex_range(bytes, 0, n).as_str());
        assert(bytes@.subrange(0, n as int) =~= bytes@);
        assert(digits@ =~= hex_all(bytes@));
    } else {
        digits.append(hex_range(bytes, 0, 8).as_str());
        digits.append("…");
        digits.append(hex_range(bytes, n - 4, n).as_str());
        assert(digits@ =~= hex_all(bytes@.subrange(0, 8)) + "…"@ + hex_all(
            bytes@.subrange(n - 4, n as int),
        ));
    }
    let mut r = "0x".to_owned();
    r.append(digits.as_str());
    r.append(" (");
    r.append(dec(n).as_str());
    r.append(" B)");
    r
}

/// Tenths of a KiB, rounded to the nearest, ties to the even one.
pub open spec fn kib_tenths(n: int) -> int {
    let (q, r) = (n * 10 / 1024, n * 10 % 1024);
    if r > 512 || (r == 512 && q % 2 == 1) {
        q + 1
    } else {
        q
    }
}

/// A byte count for display: in bytes below 1024, else in KiB with one decimal.
pub open spec fn bytes_text(n: int) -> Seq<char> {
    if n < 1024 {
        decimal(n as nat) + " B"@
    } else {
        decimal((kib_tenths(n) / 10) as nat) + "."@ + decimal((kib_tenths(n) % 10) as nat)
            + " KiB"@
    }
}

/// Renders a byte count. The count must be one that a double holds exactly.
pub fn human_bytes(n: usize) -> (r: String)
    requires
        n <= 0x20_0000_0000_0000,
    ensures
        r@ == bytes_text(n as int),
{
    if n < 1024 {
        let mut r = dec(n);
        r.append(" B");
        r
    } else {
        let scaled: u64 = n as u64 * 10;
        let (q, rest): (u64, u64) = (scaled / 1024, scaled % 1024);
        let tenths: u64 = if rest > 512 || (rest == 512 && q % 2 == 1) {
            q + 1
        } else {
            q
        };
        assert(tenths == kib_tenths(n as int));
        assert(tenths / 10 <= n);
        let mut r = dec((tenths / 10) as usize);
        r.append(".");
        r.append(dec((tenths % 10) as usize).as_str());
        r.append(" KiB");
        r
    }
}

/// The first `n` texts with a separator between them.
pub open spec fn joined_upto(parts: Seq<Seq<char>>, sep: Seq<char>, n: int) -> Seq<char>
    decreases n,
{
    if n <= 0 {
        Seq::empty()
    } else if n == 1 {
        parts[0]
    } else {
        joined_upto(parts, sep, n - 1) + sep + parts[n - 1]
    }
}

/// The texts with a separator between them.
pub open spec fn joined(parts: Seq<Seq<char>>, sep: Seq<char>) -> Seq<char> {
    joined_upto(parts, sep, parts.len() as int)
}

/// Joins texts.
pub fn join(parts: &Vec<String>, sep: &str) -> (r: String)
    ensures
        r@ == joined(views(parts@), sep@),
{
    let mut r = String::new();
    assert(r@ =~= joined_upto(views(parts@), sep@, 0));
    for i in 0..parts.len()
        invariant
            r@ == joined_upto(views(parts@), sep@, i as int),
    {
        if i > 0 {
            r.append(sep);
        }
        r.append(parts[i].as_str());
        assert(r@ =~= joined_upto(views(parts@), sep@, i + 1));
    }
    r
}

/// Numbers in decimal with a separator between them.
pub open spec fn numbers_text(ids: Seq<usize>, sep: Seq<char>) -> Seq<char> {
    joined(ids.map_values(|id: usize| decimal(id as nat)), sep)
}

/// Joins numbers.
pub fn join_numbers(ids: &Vec<usize>, sep: &str) -> (r: String)
    ensures
        r@ == numbers_text(ids@, sep@),
{
    let mut parts: Vec<String> = Vec::new();
    for i in 0..ids.len()
        invariant
            parts.len() == i,
            forall|k: int| 0 <= k < i ==> #[trigger] parts[k]@ == decimal(ids[k] as nat),
    {
        parts.push(dec(ids[i]));
    }
    assert(views(parts@) =~= ids@.map_values(|id: usize| decimal(id as nat)));
    join(&parts, sep)
}

} // verus!
