//! The outcome of a run and its row in the table of results.
use crate::bench::protocol::{Args, ArgsView};
use crate::collections::{ascending, listed};
use crate::parse::{trim, trimmed, views};
use crate::text::{dec, dec_u64, decimal, join, join_numbers, joined, numbers_text};
use std::collections::BTreeSet;
use vstd::prelude::*;

verus! {

/// What a run came to.
#[derive(Debug)]
pub struct Outcome {
    /// Dealers caught by public verification.
    pub faulty: BTreeSet<usize>,
    /// Complaints filed.
    pub complaints: usize,
    /// Size of the qualified set.
    pub qual: usize,
    /// Whether the public key reconstructs and matches; `None` where it cannot be tried.
    pub reconstructed_ok: Option<bool>,
}

/// The measured times of a run, already written out.
#[derive(Debug)]
pub struct ComputeText {
    pub deal: String,
    pub verify: String,
    pub complaint: String,
    pub keygen: String,
}

/// One network pattern's measurements, the time already written out.
#[derive(Debug)]
pub struct NetText {
    pub pattern: String,
    pub wall: String,
    pub messages: usize,
    pub bytes: usize,
    pub rounds: usize,
}

/// The columns of the table.
pub const CSV_HEADER: &'static str =
    "protocol,n,threshold,malicious_spec,latency_ms,seed,samples,deal_ms,verify_ms,complaint_ms,keygen_ms,pattern,wall_ms,messages,bytes,rounds,faulty,complaints,qual,reconstructed_ok,padded";

/// `true`, `false`, or `na` for an unknown.
pub open spec fn recon_text(b: Option<bool>) -> Seq<char> {
    match b {
        Some(true) => "true"@,
        Some(false) => "false"@,
        None => "na"@,
    }
}

pub open spec fn bool_text(b: bool) -> Seq<char> {
    if b {
        "true"@
    } else {
        "false"@
    }
}

/// A text between quotes.
pub open spec fn in_quotes(s: Seq<char>) -> Seq<char> {
    "\""@ + s + "\""@
}

/// The columns of the row of a run and a network pattern, in the order of [`CSV_HEADER`].
pub open spec fn columns(
    args: ArgsView,
    c: ComputeText,
    o: Outcome,
    net: NetText,
    padded: bool,
) -> Seq<Seq<char>> {
    let malicious = trimmed(args.malicious_spec);
    seq![
        args.protocol.label_text(),
        decimal(args.n as nat),
        decimal(args.threshold as nat),
        in_quotes(
            if malicious.len() == 0 {
                "none"@
            } else {
                malicious
            },
        ),
        decimal(args.latency_ms as nat),
        decimal(args.seed as nat),
        decimal(args.samples as nat),
        c.deal@,
        c.verify@,
        c.complaint@,
        c.keygen@,
        net.pattern@,
        net.wall@,
        decimal(net.messages as nat),
        decimal(net.bytes as nat),
        decimal(net.rounds as nat),
        in_quotes(numbers_text(listed(o.faulty@), " "@)),
        decimal(o.complaints as nat),
        decimal(o.qual as nat),
        recon_text(o.reconstructed_ok),
        bool_text(padded),
    ]
}

/// The row of a run and a network pattern.
pub open spec fn row_text(
    args: ArgsView,
    c: ComputeText,
    o: Outcome,
    net: NetText,
    padded: bool,
) -> Seq<char> {
    joined(columns(args, c, o, net, padded), ","@)
}

/// Puts a text between quotes.
fn quoted(s: &str) -> (r: String)
    ensures
        r@ == in_quotes(s@),
{
    let mut r = "\"".to_owned();
    r.append(s);
    r.append("\"");
    r
}

/// Writes the row of a run and a network pattern.
pub fn csv_row(args: &Args, c: &ComputeText, o: &Outcome, net: &NetText, padded: bool) -> (r: String)
    ensures
        r@ == row_text(args@, *c, *o, *net, padded),
{
    let faulty = ascending(&o.faulty);
    let malicious = trim(args.malicious_spec.as_str());
    let mut row: Vec<String> = Vec::new();
    row.push(args.protocol.label().to_owned());
    row.push(dec(args.n));
    row.push(dec(args.threshold));
    row.push(
        quoted(
            if malicious.unicode_len() == 0 {
                "none"
            } else {
                malicious
            },
        ),
    );
    row.push(dec_u64(args.latency_ms));
    row.push(dec_u64(args.seed));
    row.push(dec(args.samples));
    row.push(c.deal.as_str().to_owned());
    row.push(c.verify.as_str().to_owned());
    row.push(c.complaint.as_str().to_owned());
    row.push(c.keygen.as_str().to_owned());
    row.push(net.pattern.as_str().to_owned());
    row.push(net.wall.as_str().to_owned());
    row.push(dec(net.messages));
    row.push(dec(net.bytes));
    row.push(dec(net.rounds));
    row.push(quoted(join_numbers(&faulty, " ").as_str()));
    row.push(dec(o.complaints));
    row.push(dec(o.qual));
    row.push(
        match o.reconstructed_ok {
            Some(true) => "true".to_owned(),
            Some(false) => "false".to_owned(),
            None => "na".to_owned(),
        },
    );
    row.push(
        if padded {
            "true".to_owned()
        } else {
            "false".to_owned()
        },
    );
    assert(views(row@) =~= columns(args@, *c, *o, *net, padded));
    join(&row, ",")
}

} // verus!
