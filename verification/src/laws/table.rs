//! What a row of the table of results holds.
use crate::bench::protocol::ArgsView;
use crate::bench::report::{columns, row_text, ComputeText, NetText, Outcome, CSV_HEADER};
use crate::collections::listed;
use crate::laws::texts::{free_of, lemma_decimal, law_joined, law_split_of_joined};
use crate::parse::{pieces, trimmed};
use crate::text::{decimal, joined, joined_upto, numbers_text};
use vstd::prelude::*;

verus! {

proof fn lemma_joined_concat(a: Seq<Seq<char>>, b: Seq<Seq<char>>, sep: Seq<char>)
    requires
        a.len() > 0,
        b.len() > 0,
    ensures
        joined(a + b, sep) == joined(a, sep) + sep + joined(b, sep),
    decreases b.len(),
{
    let last = b.last();
    if b.len() == 1 {
        assert(a + b =~= a.push(last));
        assert(b =~= seq![last]);
        law_joined(a, sep, last);
    } else {
        let rest = b.drop_last();
        lemma_joined_concat(a, rest, sep);
        assert(a + b =~= (a + rest).push(last));
        assert(b =~= rest.push(last));
        law_joined(a + rest, sep, last);
        law_joined(rest, sep, last);
        assert(joined(a, sep) + sep + joined(rest, sep) + sep + last =~= joined(a, sep) + sep + (
        joined(rest, sep) + sep + last));
    }
}

/// A row is what stands before a column, the column and what stands behind it.
proof fn lemma_column(cols: Seq<Seq<char>>, sep: Seq<char>, k: int)
    requires
        0 < k < cols.len() - 1,
    ensures
        joined(cols, sep) == joined(cols.take(k), sep) + sep + cols[k] + sep + joined(
            cols.skip(k + 1),
            sep,
        ),
{
    let rest = cols.skip(k);
    assert(cols =~= cols.take(k) + rest);
    lemma_joined_concat(cols.take(k), rest, sep);
    assert(rest =~= seq![cols[k]] + cols.skip(k + 1));
    lemma_joined_concat(seq![cols[k]], cols.skip(k + 1), sep);
    law_joined(rest, sep, cols[k]);
    assert(joined(cols, sep) =~= joined(cols.take(k), sep) + sep + cols[k] + sep + joined(
        cols.skip(k + 1),
        sep,
    ));
}

/// What stands in a row before the list of malicious dealers, with the quote that opens it.
pub open spec fn before_malicious(args: ArgsView) -> Seq<char> {
    args.protocol.label_text() + ","@ + decimal(args.n as nat) + ","@ + decimal(
        args.threshold as nat,
    ) + ","@ + "\""@
}

/// The row, with what is written in the fourth column between the quotes.
proof fn lemma_row(args: ArgsView, c: ComputeText, o: Outcome, net: NetText, padded: bool)
    ensures
        row_text(args, c, o, net, padded) == before_malicious(args) + shown_malicious(args) + (
        "\""@ + ","@ + joined(columns(args, c, o, net, padded).skip(4), ","@)),
{
    let cols = columns(args, c, o, net, padded);
    lemma_column(cols, ","@, 3);
    let first = cols.take(3);
    assert(joined(first, ","@) == args.protocol.label_text() + ","@ + decimal(args.n as nat) + ","@
        + decimal(args.threshold as nat)) by {
        reveal_with_fuel(joined_upto, 4);
    }
    let head = joined(first, ","@);
    let rest = joined(cols.skip(4), ","@);
    let shown = shown_malicious(args);
    assert(cols[3] == "\""@ + shown + "\""@);
    assert(head + ","@ + ("\""@ + shown + "\""@) + ","@ + rest =~= (head + ","@ + "\""@) + shown
        + ("\""@ + ","@ + rest));
}

spec fn shown_malicious(args: ArgsView) -> Seq<char> {
    if trimmed(args.malicious_spec).len() == 0 {
        "none"@
    } else {
        trimmed(args.malicious_spec)
    }
}

/// The fourth column is quoted, and holds the list of malicious dealers as it was given, without the
/// white space round it, or the word `none` where the list is blank.
pub proof fn law_malicious_column(
    args: ArgsView,
    c: ComputeText,
    o: Outcome,
    net: NetText,
    padded: bool,
)
    ensures
        ({
            let row = row_text(args, c, o, net, padded);
            let at = before_malicious(args).len() as int;
            let given = trimmed(args.malicious_spec);
            let n = given.len() as int;
            &&& row.take(at) == before_malicious(args)
            &&& n > 0 ==> row.len() > at + n && row.subrange(at, at + n) == given && row[at + n]
                == '"'
            &&& n == 0 ==> row.len() > at + 4 && row.subrange(at, at + 4) == "none"@ && row[at + 4]
                == '"'
        }),
{
    reveal_strlit("none");
    reveal_strlit("\"");
    let row = row_text(args, c, o, net, padded);
    let before = before_malicious(args);
    let at = before.len() as int;
    let shown = shown_malicious(args);
    let rest = "\""@ + ","@ + joined(columns(args, c, o, net, padded).skip(4), ","@);
    lemma_row(args, c, o, net, padded);
    assert(row.take(at) =~= before);
    assert(row.subrange(at, at + shown.len()) =~= shown);
    assert(row[at + shown.len()] == rest[0]);
    assert(rest[0] == '"');
}

/// Rows of runs that differ only in who is malicious differ.
pub proof fn law_malicious_column_tells_apart(
    args: ArgsView,
    other: Seq<char>,
    c: ComputeText,
    o: Outcome,
    net: NetText,
    padded: bool,
)
    requires
        trimmed(args.malicious_spec).len() > 0,
        trimmed(other).len() > 0,
        trimmed(args.malicious_spec) != trimmed(other),
    ensures
        row_text(args, c, o, net, padded) != row_text(
            ArgsView { malicious_spec: other, ..args },
            c,
            o,
            net,
            padded,
        ),
{
    let args2 = ArgsView { malicious_spec: other, ..args };
    let (a, b) = (trimmed(args.malicious_spec), trimmed(other));
    let before = before_malicious(args);
    let cols = columns(args, c, o, net, padded);
    let rest = "\""@ + ","@ + joined(cols.skip(4), ","@);
    lemma_row(args, c, o, net, padded);
    lemma_row(args2, c, o, net, padded);
    assert(cols.skip(4) =~= columns(args2, c, o, net, padded).skip(4));
    let (r1, r2) = (row_text(args, c, o, net, padded), row_text(args2, c, o, net, padded));
    let at = before.len() as int;
    if r1 == r2 {
        assert(r1.len() == at + a.len() + rest.len());
        assert(r2.len() == at + b.len() + rest.len());
        assert(r1.subrange(at, at + a.len()) =~= a);
        assert(r2.subrange(at, at + b.len()) =~= b);
    }
}

proof fn lemma_free_concat(a: Seq<char>, b: Seq<char>, x: char)
    requires
        free_of(a, x),
        free_of(b, x),
    ensures
        free_of(a + b, x),
{
    assert forall|i: int| 0 <= i < (a + b).len() implies #[trigger] (a + b)[i] != x by {
        if i < a.len() {
            assert((a + b)[i] == a[i]);
        } else {
            assert((a + b)[i] == b[i - a.len()]);
        }
    }
}

proof fn lemma_plain_decimal(n: nat)
    ensures
        plain(decimal(n)),
{
    lemma_decimal(n);
}

proof fn lemma_free_joined(parts: Seq<Seq<char>>, sep: Seq<char>, x: char, n: int)
    requires
        0 <= n <= parts.len(),
        free_of(sep, x),
        forall|i: int| 0 <= i < n ==> free_of(#[trigger] parts[i], x),
    ensures
        free_of(joined_upto(parts, sep, n), x),
    decreases n,
{
    if n == 1 {
        assert(free_of(parts[0], x));
    } else if n > 1 {
        lemma_free_joined(parts, sep, x, n - 1);
        assert(free_of(parts[n - 1], x));
        lemma_free_concat(joined_upto(parts, sep, n - 1), sep, x);
        lemma_free_concat(joined_upto(parts, sep, n - 1) + sep, parts[n - 1], x);
    }
}

proof fn lemma_free_numbers(ids: Seq<usize>, x: char)
    requires
        x == ',' || x == '"',
    ensures
        free_of(numbers_text(ids, " "@), x),
{
    reveal_strlit(" ");
    let parts = ids.map_values(|id: usize| decimal(id as nat));
    assert forall|i: int| 0 <= i < parts.len() implies free_of(#[trigger] parts[i], x) by {
        lemma_plain_decimal(ids[i] as nat);
    }
    lemma_free_joined(parts, " "@, x, parts.len() as int);
}

/// No comma and no quote.
pub open spec fn plain(s: Seq<char>) -> bool {
    free_of(s, ',') && free_of(s, '"')
}

proof fn lemma_plain_words(args: ArgsView, o: Outcome, padded: bool)
    ensures
        plain(args.protocol.label_text()),
        plain(crate::bench::report::recon_text(o.reconstructed_ok)),
        plain(crate::bench::report::bool_text(padded)),
        plain("none"@),
{
    reveal_strlit("gurkan");
    reveal_strlit("neji");
    reveal_strlit("btsof");
    reveal_strlit("kalai2022");
    reveal_strlit("aggregatable2025");
    reveal_strlit("true");
    reveal_strlit("false");
    reveal_strlit("na");
    reveal_strlit("none");
}

proof fn lemma_edges(cols: Seq<Seq<char>>, sep: Seq<char>)
    requires
        cols.len() > 0,
    ensures
        joined(cols.push(Seq::empty()), sep) == joined(cols, sep) + sep,
        joined(seq![Seq::empty()] + cols, sep) == sep + joined(cols, sep),
        joined((seq![Seq::empty()] + cols).push(Seq::empty()), sep) == sep + joined(cols, sep) + sep,
{
    let none = Seq::<char>::empty();
    law_joined(cols, sep, none);
    assert(joined(cols, sep) + sep + none =~= joined(cols, sep) + sep);
    lemma_joined_concat(seq![none], cols, sep);
    assert(none + sep + joined(cols, sep) =~= sep + joined(cols, sep));
    law_joined(seq![none] + cols, sep, none);
    assert(sep + joined(cols, sep) + sep + none =~= sep + joined(cols, sep) + sep);
}

/// A row reads back: taken apart at the quotes, and the unquoted parts at the commas, it gives the
/// twenty-one values in the order of the header.
pub proof fn law_row_reads_back(
    args: ArgsView,
    c: ComputeText,
    o: Outcome,
    net: NetText,
    padded: bool,
)
    requires
        free_of(trimmed(args.malicious_spec), '"'),
        plain(c.deal@),
        plain(c.verify@),
        plain(c.complaint@),
        plain(c.keygen@),
        plain(net.pattern@),
        plain(net.wall@),
    ensures
        ({
            let parts = pieces(row_text(args, c, o, net, padded), '"');
            let malicious = trimmed(args.malicious_spec);
            &&& parts.len() == 5
            &&& pieces(parts[0], ',') == seq![
                args.protocol.label_text(),
                decimal(args.n as nat),
                decimal(args.threshold as nat),
                Seq::empty(),
            ]
            &&& malicious.len() > 0 ==> parts[1] == malicious
            &&& malicious.len() == 0 ==> parts[1] == "none"@
            &&& pieces(parts[2], ',') == seq![
                Seq::empty(),
                decimal(args.latency_ms as nat),
                decimal(args.seed as nat),
                decimal(args.samples as nat),
                c.deal@,
                c.verify@,
                c.complaint@,
                c.keygen@,
                net.pattern@,
                net.wall@,
                decimal(net.messages as nat),
                decimal(net.bytes as nat),
                decimal(net.rounds as nat),
                Seq::empty(),
            ]
            &&& parts[3] == numbers_text(listed(o.faulty@), " "@)
            &&& pieces(parts[4], ',') == seq![
                Seq::empty(),
                decimal(o.complaints as nat),
                decimal(o.qual as nat),
                match o.reconstructed_ok {
                    Some(true) => "true"@,
                    Some(false) => "false"@,
                    None => "na"@,
                },
                if padded {
                    "true"@
                } else {
                    "false"@
                },
            ]
        }),
{
    reveal_strlit("\"");
    let cols = columns(args, c, o, net, padded);
    let (head, body, end) = (cols.subrange(0, 3), cols.subrange(4, 16), cols.subrange(17, 21));
    let faulty = numbers_text(listed(o.faulty@), " "@);
    let quote = "\""@;
    lemma_first_columns(args, c, o, net, padded);
    lemma_middle_columns(args, c, o, net, padded);
    lemma_last_columns(args, c, o, net, padded);
    lemma_plain_words(args, o, padded);
    lemma_free_numbers(listed(o.faulty@), '"');
    let (h, b, e) = (joined(head, ","@), joined(body, ","@), joined(end, ","@));
    let parts = seq![h + ","@, shown_malicious(args), ","@ + b + ","@, faulty, ","@ + e];
    assert(quote =~= seq!['"']);
    assert forall|i: int| 0 <= i < 5 implies free_of(#[trigger] parts[i], '"') by {}
    law_split_of_joined(parts, '"');
    lemma_five(parts, quote);
    lemma_column(cols, ","@, 3);
    assert(cols.take(3) =~= head);
    let rest = cols.skip(4);
    lemma_column(rest, ","@, 12);
    assert(rest.take(12) =~= body);
    assert(rest.skip(13) =~= end);
    assert(rest[12] == quote + faulty + quote);
    assert(cols[3] == quote + shown_malicious(args) + quote);
    lemma_assembly(h, shown_malicious(args), b, faulty, e, ","@, quote);
}

proof fn lemma_assembly(
    h: Seq<char>,
    m: Seq<char>,
    b: Seq<char>,
    f: Seq<char>,
    e: Seq<char>,
    comma: Seq<char>,
    quote: Seq<char>,
)
    ensures
        h + comma + (quote + m + quote) + comma + (b + comma + (quote + f + quote) + comma + e) == (
        h + comma) + quote + m + quote + (comma + b + comma) + quote + f + quote + (comma + e),
{
    assert(h + comma + (quote + m + quote) + comma =~= (h + comma) + quote + m + quote + comma);
    assert(b + comma + (quote + f + quote) + comma + e =~= b + comma + quote + f + quote + (comma
        + e));
    let left = (h + comma) + quote + m + quote;
    assert(left + comma + (b + comma + quote + f + quote + (comma + e)) =~= left + (comma + b
        + comma) + quote + f + quote + (comma + e));
}

proof fn lemma_first_columns(args: ArgsView, c: ComputeText, o: Outcome, net: NetText, padded: bool)
    ensures
        ({
            let head = joined(columns(args, c, o, net, padded).subrange(0, 3), ","@) + ","@;
            &&& free_of(head, '"')
            &&& pieces(head, ',') == seq![
                args.protocol.label_text(),
                decimal(args.n as nat),
                decimal(args.threshold as nat),
                Seq::empty(),
            ]
        }),
{
    reveal_strlit(",");
    assert(","@ =~= seq![',']);
    lemma_plain_words(args, o, padded);
    lemma_plain_decimal(args.n as nat);
    lemma_plain_decimal(args.threshold as nat);
    let head = columns(args, c, o, net, padded).subrange(0, 3);
    let first = seq![
        args.protocol.label_text(),
        decimal(args.n as nat),
        decimal(args.threshold as nat),
        Seq::empty(),
    ];
    lemma_edges(head, ","@);
    assert(head.push(Seq::empty()) =~= first);
    lemma_free_joined(first, ","@, '"', 4);
    law_split_of_joined(first, ',');
}

proof fn lemma_middle_columns(
    args: ArgsView,
    c: ComputeText,
    o: Outcome,
    net: NetText,
    padded: bool,
)
    requires
        plain(c.deal@),
        plain(c.verify@),
        plain(c.complaint@),
        plain(c.keygen@),
        plain(net.pattern@),
        plain(net.wall@),
    ensures
        ({
            let body = ","@ + joined(columns(args, c, o, net, padded).subrange(4, 16), ","@) + ","@;
            &&& free_of(body, '"')
            &&& pieces(body, ',') == seq![
                Seq::empty(),
                decimal(args.latency_ms as nat),
                decimal(args.seed as nat),
                decimal(args.samples as nat),
                c.deal@,
                c.verify@,
                c.complaint@,
                c.keygen@,
                net.pattern@,
                net.wall@,
                decimal(net.messages as nat),
                decimal(net.bytes as nat),
                decimal(net.rounds as nat),
                Seq::empty(),
            ]
        }),
{
    reveal_strlit(",");
    assert(","@ =~= seq![',']);
    lemma_plain_decimal(args.latency_ms as nat);
    lemma_plain_decimal(args.seed as nat);
    lemma_plain_decimal(args.samples as nat);
    lemma_plain_decimal(net.messages as nat);
    lemma_plain_decimal(net.bytes as nat);
    lemma_plain_decimal(net.rounds as nat);
    let none = Seq::<char>::empty();
    let body = columns(args, c, o, net, padded).subrange(4, 16);
    let middle = seq![
        none,
        decimal(args.latency_ms as nat),
        decimal(args.seed as nat),
        decimal(args.samples as nat),
        c.deal@,
        c.verify@,
        c.complaint@,
        c.keygen@,
        net.pattern@,
        net.wall@,
        decimal(net.messages as nat),
        decimal(net.bytes as nat),
        decimal(net.rounds as nat),
        none,
    ];
    lemma_edges(body, ","@);
    assert((seq![none] + body).push(none) =~= middle);
    lemma_free_joined(middle, ","@, '"', 14);
    law_split_of_joined(middle, ',');
}

proof fn lemma_last_columns(args: ArgsView, c: ComputeText, o: Outcome, net: NetText, padded: bool)
    ensures
        ({
            let end = ","@ + joined(columns(args, c, o, net, padded).subrange(17, 21), ","@);
            &&& free_of(end, '"')
            &&& pieces(end, ',') == seq![
                Seq::empty(),
                decimal(o.complaints as nat),
                decimal(o.qual as nat),
                match o.reconstructed_ok {
                    Some(true) => "true"@,
                    Some(false) => "false"@,
                    None => "na"@,
                },
                if padded {
                    "true"@
                } else {
                    "false"@
                },
            ]
        }),
{
    reveal_strlit(",");
    assert(","@ =~= seq![',']);
    lemma_plain_words(args, o, padded);
    lemma_plain_decimal(o.complaints as nat);
    lemma_plain_decimal(o.qual as nat);
    let none = Seq::<char>::empty();
    let end = columns(args, c, o, net, padded).subrange(17, 21);
    let last = seq![
        none,
        decimal(o.complaints as nat),
        decimal(o.qual as nat),
        crate::bench::report::recon_text(o.reconstructed_ok),
        crate::bench::report::bool_text(padded),
    ];
    lemma_edges(end, ","@);
    assert(seq![none] + end =~= last);
    lemma_free_joined(last, ","@, '"', 5);
    law_split_of_joined(last, ',');
}

/// The header names the twenty-one columns.
pub proof fn law_header()
    ensures
        pieces(CSV_HEADER@, ',') == seq![
            "protocol"@,
            "n"@,
            "threshold"@,
            "malicious_spec"@,
            "latency_ms"@,
            "seed"@,
            "samples"@,
            "deal_ms"@,
            "verify_ms"@,
            "complaint_ms"@,
            "keygen_ms"@,
            "pattern"@,
            "wall_ms"@,
            "messages"@,
            "bytes"@,
            "rounds"@,
            "faulty"@,
            "complaints"@,
            "qual"@,
            "reconstructed_ok"@,
            "padded"@,
        ],
{
    let names = seq![
        "protocol"@,
        "n"@,
        "threshold"@,
        "malicious_spec"@,
        "latency_ms"@,
        "seed"@,
        "samples"@,
        "deal_ms"@,
        "verify_ms"@,
        "complaint_ms"@,
        "keygen_ms"@,
        "pattern"@,
        "wall_ms"@,
        "messages"@,
        "bytes"@,
        "rounds"@,
        "faulty"@,
        "complaints"@,
        "qual"@,
        "reconstructed_ok"@,
        "padded"@,
    ];
    reveal_strlit("protocol");
    reveal_strlit("n");
    reveal_strlit("threshold");
    reveal_strlit("malicious_spec");
    reveal_strlit("latency_ms");
    reveal_strlit("seed");
    reveal_strlit("samples");
    reveal_strlit("deal_ms");
    reveal_strlit("verify_ms");
    reveal_strlit("complaint_ms");
    reveal_strlit("keygen_ms");
    reveal_strlit("pattern");
    reveal_strlit("wall_ms");
    reveal_strlit("messages");
    reveal_strlit("bytes");
    reveal_strlit("rounds");
    reveal_strlit("faulty");
    reveal_strlit("complaints");
    reveal_strlit("qual");
    reveal_strlit("reconstructed_ok");
    reveal_strlit("padded");
    reveal_strlit(",");
    assert(","@ =~= seq![',']);
    reveal_strlit(
        "protocol,n,threshold,malicious_spec,latency_ms,seed,samples,deal_ms,verify_ms,complaint_ms,keygen_ms,pattern,wall_ms,messages,bytes,rounds,faulty,complaints,qual,reconstructed_ok,padded",
    );
    lemma_header_parts(names, ","@);
    assert(CSV_HEADER@ =~= joined(names, ","@));
    law_split_of_joined(names, ',');
}

#[verifier::rlimit(60)]
proof fn lemma_header_parts(p: Seq<Seq<char>>, sep: Seq<char>)
    requires
        p.len() == 21,
    ensures
        joined(p, sep) == p[0] + sep + p[1] + sep + p[2] + sep + p[3] + sep + p[4] + sep + p[5]
            + sep + p[6] + sep + p[7] + sep + p[8] + sep + p[9] + sep + p[10] + sep + p[11] + sep
            + p[12] + sep + p[13] + sep + p[14] + sep + p[15] + sep + p[16] + sep + p[17] + sep
            + p[18] + sep + p[19] + sep + p[20],
{
    reveal_with_fuel(joined_upto, 22);
}

proof fn lemma_five(parts: Seq<Seq<char>>, sep: Seq<char>)
    requires
        parts.len() == 5,
    ensures
        joined(parts, sep) == parts[0] + sep + parts[1] + sep + parts[2] + sep + parts[3] + sep
            + parts[4],
{
    reveal_with_fuel(joined_upto, 6);
}

} // verus!
