//! The protocols, who misbehaves in them, and the command line.
use crate::parse::{find, number, pieces, position, read_number, split, trim, trimmed, views};
use crate::text::{dec, decimal, same_text};
use std::collections::BTreeMap;
use vstd::prelude::*;

verus! {

broadcast use {vstd::laws_cmp::group_laws_cmp, vstd::std_specs::btree::group_btree_axioms};

/// The protocols under comparison.
#[derive(Clone, Copy, Debug, PartialEq, Eq, Structural)]
pub enum Protocol {
    Gurkan,
    Neji,
    Btsof,
    Kalai2022,
    Aggregatable2025,
}

impl Protocol {
    pub open spec fn label_text(self) -> Seq<char> {
        match self {
            Protocol::Gurkan => "gurkan"@,
            Protocol::Neji => "neji"@,
            Protocol::Btsof => "btsof"@,
            Protocol::Kalai2022 => "kalai2022"@,
            Protocol::Aggregatable2025 => "aggregatable2025"@,
        }
    }

    /// The complaint about a name that is none of a protocol.
    pub open spec fn unknown_text(s: Seq<char>) -> Seq<char> {
        "unknown protocol '"@ + s
            + "' (expected gurkan|neji|btsof|kalai2022|aggregatable2025)"@
    }

    /// The protocol of a name.
    pub open spec fn named(s: Seq<char>) -> Option<Protocol> {
        if s == "gurkan"@ {
            Some(Protocol::Gurkan)
        } else if s == "neji"@ {
            Some(Protocol::Neji)
        } else if s == "btsof"@ {
            Some(Protocol::Btsof)
        } else if s == "kalai2022"@ {
            Some(Protocol::Kalai2022)
        } else if s == "aggregatable2025"@ {
            Some(Protocol::Aggregatable2025)
        } else {
            None
        }
    }

    /// Reads the name of a protocol.
    pub fn parse(s: &str) -> (r: Result<Self, String>)
        ensures
            match r {
                Ok(p) => Self::named(s@) == Some(p),
                Err(e) => Self::named(s@) is None && e@ == Self::unknown_text(s@),
            },
    {
        if same_text(s, "gurkan") {
            Ok(Protocol::Gurkan)
        } else if same_text(s, "neji") {
            Ok(Protocol::Neji)
        } else if same_text(s, "btsof") {
            Ok(Protocol::Btsof)
        } else if same_text(s, "kalai2022") {
            Ok(Protocol::Kalai2022)
        } else if same_text(s, "aggregatable2025") {
            Ok(Protocol::Aggregatable2025)
        } else {
            let mut e = "unknown protocol '".to_owned();
            e.append(s);
            e.append("' (expected gurkan|neji|btsof|kalai2022|aggregatable2025)");
            Err(e)
        }
    }

    /// The name of the protocol.
    pub fn label(&self) -> (r: &'static str)
        ensures
            r@ == self.label_text(),
    {
        match self {
            Protocol::Gurkan => "gurkan",
            Protocol::Neji => "neji",
            Protocol::Btsof => "btsof",
            Protocol::Kalai2022 => "kalai2022",
            Protocol::Aggregatable2025 => "aggregatable2025",
        }
    }
}

/// A name gives back its protocol, and nothing else does.
pub proof fn law_label_roundtrip(p: Protocol, s: Seq<char>)
    ensures
        Protocol::named(s) == Some(p) <==> s == p.label_text(),
{
    reveal_strlit("gurkan");
    reveal_strlit("neji");
    reveal_strlit("btsof");
    reveal_strlit("kalai2022");
    reveal_strlit("aggregatable2025");
    assert("gurkan"@.len() == 6 && "neji"@.len() == 4 && "btsof"@.len() == 5 && "kalai2022"@.len()
        == 9 && "aggregatable2025"@.len() == 16);
}

/// The layer that a malicious dealer corrupts.
#[derive(Clone, Copy, Debug, PartialEq, Eq, Structural)]
pub enum Layer {
    Z,
    Xy,
}

/// What one entry `id:layer` says; an empty one says nothing.
pub open spec fn entry_meaning(entry: Seq<char>, protocol: Protocol) -> Result<
    Option<(usize, Layer)>,
    Seq<char>,
> {
    let e = trimmed(entry);
    let k = position(e, ':');
    let id = number(trimmed(e.take(k)), usize::MAX as int);
    let layer = trimmed(e.skip(k + 1));
    if e.len() == 0 {
        Ok(None)
    } else if k == e.len() {
        Err("malicious entry '"@ + e + "' must be id:layer"@)
    } else if id is None {
        Err("bad id in '"@ + e + "'"@)
    } else if layer == "z"@ {
        Ok(Some((id->0 as usize, Layer::Z)))
    } else if layer != "xy"@ {
        Err("unknown layer '"@ + layer + "' (expected z|xy)"@)
    } else if protocol == Protocol::Gurkan {
        Err("protocol gurkan has no xy layer; rejected malicious entry '"@ + e + "'"@)
    } else {
        Ok(Some((id->0 as usize, Layer::Xy)))
    }
}

/// What the entries say together: the first faulty one decides, and a later entry for an id stands.
pub open spec fn entries_meaning(entries: Seq<Seq<char>>, protocol: Protocol) -> Result<
    Map<usize, Layer>,
    Seq<char>,
>
    decreases entries.len(),
{
    if entries.len() == 0 {
        Ok(Map::empty())
    } else {
        match entries_meaning(entries.drop_last(), protocol) {
            Ok(m) => match entry_meaning(entries.last(), protocol) {
                Ok(Some((id, layer))) => Ok(m.insert(id, layer)),
                Ok(None) => Ok(m),
                Err(e) => Err(e),
            },
            Err(e) => Err(e),
        }
    }
}

/// What the list of malicious dealers says.
pub open spec fn malicious_meaning(spec_text: Seq<char>, protocol: Protocol) -> Result<
    Map<usize, Layer>,
    Seq<char>,
> {
    let s = trimmed(spec_text);
    if s.len() == 0 || s == "none"@ {
        Ok(Map::empty())
    } else {
        entries_meaning(pieces(s, ','), protocol)
    }
}

/// A text put between two others.
fn quoted(before: &str, s: &str, after: &str) -> (r: String)
    ensures
        r@ == before@ + s@ + after@,
{
    let mut r = before.to_owned();
    r.append(s);
    r.append(after);
    r
}

fn parse_entry(entry: &str, protocol: Protocol) -> (r: Result<Option<(usize, Layer)>, String>)
    ensures
        match r {
            Ok(o) => entry_meaning(entry@, protocol) == Result::<
                Option<(usize, Layer)>,
                Seq<char>,
            >::Ok(o),
            Err(e) => entry_meaning(entry@, protocol) == Result::<
                Option<(usize, Layer)>,
                Seq<char>,
            >::Err(e@),
        },
{
    let e = trim(entry);
    let n = e.unicode_len();
    if n == 0 {
        return Ok(None);
    }
    let k = find(e, ':');
    if k == n {
        return Err(quoted("malicious entry '", e, "' must be id:layer"));
    }
    let id_text = e.substring_char(0, k);
    let layer_text = e.substring_char(k + 1, n);
    proof {
        assert(e@.subrange(0, k as int) =~= e@.take(k as int));
        assert(e@.subrange(k + 1, n as int) =~= e@.skip(k + 1));
    }
    let id: usize = match read_number(trim(id_text), usize::MAX as u64) {
        Some(v) => v as usize,
        None => {
            return Err(quoted("bad id in '", e, "'"));
        },
    };
    let layer = trim(layer_text);
    if same_text(layer, "z") {
        return Ok(Some((id, Layer::Z)));
    }
    if !same_text(layer, "xy") {
        return Err(quoted("unknown layer '", layer, "' (expected z|xy)"));
    }
    if protocol == Protocol::Gurkan {
        return Err(
            quoted("protocol gurkan has no xy layer; rejected malicious entry '", e, "'"),
        );
    }
    Ok(Some((id, Layer::Xy)))
}

/// Reads a list of malicious dealers such as `1:z,4:xy`, and rejects layers that the protocol does
/// not have.
pub fn parse_malicious(spec_text: &str, protocol: Protocol) -> (r: Result<
    BTreeMap<usize, Layer>,
    String,
>)
    ensures
        match r {
            Ok(m) => malicious_meaning(spec_text@, protocol) == Result::<
                Map<usize, Layer>,
                Seq<char>,
            >::Ok(m@),
            Err(e) => malicious_meaning(spec_text@, protocol) == Result::<
                Map<usize, Layer>,
                Seq<char>,
            >::Err(e@),
        },
{
    let mut out: BTreeMap<usize, Layer> = BTreeMap::new();
    let s = trim(spec_text);
    if s.unicode_len() == 0 || same_text(s, "none") {
        return Ok(out);
    }
    let entries = split(s, ',');
    let ghost all = pieces(s@, ',');
    for i in 0..entries.len()
        invariant
            views(entries@) == all,
            all == pieces(trimmed(spec_text@), ','),
            trimmed(spec_text@).len() != 0,
            trimmed(spec_text@) != "none"@,
            entries_meaning(all.take(i as int), protocol) == Result::<
                Map<usize, Layer>,
                Seq<char>,
            >::Ok(out@),
    {
        assert(all[i as int] == entries[i as int]@);
        assert(all.take(i + 1).drop_last() =~= all.take(i as int));
        match parse_entry(entries[i].as_str(), protocol) {
            Ok(Some((id, layer))) => {
                out.insert(id, layer);
            },
            Ok(None) => {},
            Err(e) => {
                proof {
                    lemma_first_error(all, protocol, i + 1);
                }
                return Err(e);
            },
        }
    }
    assert(all.take(entries.len() as int) =~= all);
    Ok(out)
}

/// An error among the first entries is the error of all.
proof fn lemma_first_error(entries: Seq<Seq<char>>, protocol: Protocol, k: int)
    requires
        0 <= k <= entries.len(),
        entries_meaning(entries.take(k), protocol) is Err,
    ensures
        entries_meaning(entries, protocol) == entries_meaning(entries.take(k), protocol),
    decreases entries.len() - k,
{
    if k < entries.len() {
        assert(entries.take(k + 1).drop_last() =~= entries.take(k));
        lemma_first_error(entries, protocol, k + 1);
    } else {
        assert(entries.take(k) =~= entries);
    }
}

/// The options on the command line from place `i` on, as pairs of name and value.
pub open spec fn options(raw: Seq<Seq<char>>, i: int) -> Result<
    Seq<(Seq<char>, Seq<char>)>,
    Seq<char>,
>
    decreases raw.len() - i,
{
    if i >= raw.len() || i < 0 {
        Ok(Seq::empty())
    } else if !(raw[i].len() >= 2 && raw[i][0] == '-' && raw[i][1] == '-') {
        Err("unexpected argument '"@ + raw[i] + "'"@)
    } else if i + 1 >= raw.len() {
        Err("missing value for --"@ + raw[i].skip(2))
    } else {
        match options(raw, i + 2) {
            Ok(rest) => Ok(seq![(raw[i].skip(2), raw[i + 1])] + rest),
            Err(e) => Err(e),
        }
    }
}

/// The value of an option; the last occurrence stands.
pub open spec fn lookup(opts: Seq<(Seq<char>, Seq<char>)>, name: Seq<char>) -> Option<Seq<char>>
    decreases opts.len(),
{
    if opts.len() == 0 {
        None
    } else if opts.last().0 == name {
        Some(opts.last().1)
    } else {
        lookup(opts.drop_last(), name)
    }
}

/// A benchmark's configuration.
#[derive(Debug)]
pub struct Args {
    pub protocol: Protocol,
    pub n: usize,
    pub threshold: usize,
    pub malicious_spec: String,
    pub latency_ms: u64,
    pub seed: u64,
    pub samples: usize,
    pub out: Option<String>,
}

/// What an [`Args`] holds.
pub struct ArgsView {
    pub protocol: Protocol,
    pub n: int,
    pub threshold: int,
    pub malicious_spec: Seq<char>,
    pub latency_ms: int,
    pub seed: int,
    pub samples: int,
    pub out: Option<Seq<char>>,
}

impl View for Args {
    type V = ArgsView;

    open spec fn view(&self) -> ArgsView {
        ArgsView {
            protocol: self.protocol,
            n: self.n as int,
            threshold: self.threshold as int,
            malicious_spec: self.malicious_spec@,
            latency_ms: self.latency_ms as int,
            seed: self.seed as int,
            samples: self.samples as int,
            out: match self.out {
                Some(s) => Some(s@),
                None => None,
            },
        }
    }
}

/// A numeric option with a default.
pub open spec fn number_option(
    opts: Seq<(Seq<char>, Seq<char>)>,
    name: Seq<char>,
    max: int,
    default: int,
) -> Option<int> {
    match lookup(opts, name) {
        Some(s) => number(s, max),
        None => Some(default),
    }
}

/// The complaint about a threshold out of range.
pub open spec fn threshold_text(t: int, n: int) -> Seq<char> {
    "--threshold (degree t) must satisfy 1 <= t < n (got t="@ + decimal(t as nat) + ", n="@
        + decimal(n as nat) + ")"@
}

/// What the options say; the first fault, in this order, decides.
pub open spec fn configuration(opts: Seq<(Seq<char>, Seq<char>)>) -> Result<
    ArgsView,
    Seq<char>,
> {
    let name = lookup(opts, "protocol"@);
    let size = lookup(opts, "n"@);
    if name is None {
        Err("missing required --protocol"@)
    } else if Protocol::named(name->0) is None {
        Err(Protocol::unknown_text(name->0))
    } else if size is None {
        Err("missing required --n"@)
    } else if number(size->0, usize::MAX as int) is None {
        Err("bad --n"@)
    } else if number(size->0, usize::MAX as int)->0 < 2 {
        Err("--n must be >= 2"@)
    } else {
        let n = number(size->0, usize::MAX as int)->0;
        let threshold = number_option(opts, "threshold"@, usize::MAX as int, n / 2);
        let latency = number_option(opts, "latency-ms"@, u64::MAX as int, 0);
        let seed = number_option(opts, "seed"@, u64::MAX as int, 0);
        let samples = number_option(opts, "samples"@, usize::MAX as int, 10);
        if threshold is None {
            Err("bad --threshold"@)
        } else if threshold->0 < 1 || threshold->0 >= n {
            Err(threshold_text(threshold->0, n))
        } else if latency is None {
            Err("bad --latency-ms"@)
        } else if seed is None {
            Err("bad --seed"@)
        } else if samples is None {
            Err("bad --samples"@)
        } else {
            Ok(
                ArgsView {
                    protocol: Protocol::named(name->0)->0,
                    n,
                    threshold: threshold->0,
                    malicious_spec: match lookup(opts, "malicious"@) {
                        Some(s) => s,
                        None => Seq::empty(),
                    },
                    latency_ms: latency->0,
                    seed: seed->0,
                    samples: if samples->0 < 1 {
                        1
                    } else {
                        samples->0
                    },
                    out: lookup(opts, "out"@),
                },
            )
        }
    }
}

/// What the command line says.
pub open spec fn command_line(raw: Seq<Seq<char>>) -> Result<ArgsView, Seq<char>> {
    match options(raw, 0) {
        Ok(opts) => configuration(opts),
        Err(e) => Err(e),
    }
}

/// The pairs that two vectors of names and values make.
spec fn zipped(names: Seq<String>, values: Seq<String>) -> Seq<(Seq<char>, Seq<char>)> {
    Seq::new(names.len(), |i: int| (names[i]@, values[i]@))
}

fn look_up(names: &Vec<String>, values: &Vec<String>, name: &str) -> (r: Option<String>)
    requires
        names.len() == values.len(),
    ensures
        match r {
            Some(s) => lookup(zipped(names@, values@), name@) == Some(s@),
            None => lookup(zipped(names@, values@), name@) is None,
        },
{
    let ghost opts = zipped(names@, values@);
    let mut i: usize = names.len();
    assert(opts.take(i as int) =~= opts);
    while i > 0
        invariant
            i <= names.len(),
            names.len() == values.len(),
            opts == zipped(names@, values@),
            lookup(opts, name@) == lookup(opts.take(i as int), name@),
        decreases i,
    {
        i = i - 1;
        assert(opts.take(i + 1).drop_last() =~= opts.take(i as int));
        if same_text(names[i].as_str(), name) {
            return Some(values[i].clone());
        }
    }
    None
}

fn number_of(
    names: &Vec<String>,
    values: &Vec<String>,
    name: &str,
    max: u64,
    default: u64,
) -> (r: Option<u64>)
    requires
        names.len() == values.len(),
        default <= max,
    ensures
        match r {
            Some(v) => v <= max && number_option(
                zipped(names@, values@),
                name@,
                max as int,
                default as int,
            ) == Some(v as int),
            None => number_option(
                zipped(names@, values@),
                name@,
                max as int,
                default as int,
            ) is None,
        },
{
    match look_up(names, values, name) {
        Some(s) => read_number(s.as_str(), max),
        None => Some(default),
    }
}

fn starts_with_dashes(s: &str) -> (r: bool)
    ensures
        r == (s@.len() >= 2 && s@[0] == '-' && s@[1] == '-'),
{
    s.unicode_len() >= 2 && s.get_char(0) == '-' && s.get_char(1) == '-'
}

/// Reads the arguments of the command line, without the name of the program.
pub fn parse_args(raw: &Vec<String>) -> (r: Result<Args, String>)
    ensures
        match r {
            Ok(args) => command_line(views(raw@)) == Result::<ArgsView, Seq<char>>::Ok(args@),
            Err(e) => command_line(views(raw@)) == Result::<ArgsView, Seq<char>>::Err(e@),
        },
{
    let ghost line = views(raw@);
    let mut names: Vec<String> = Vec::new();
    let mut values: Vec<String> = Vec::new();
    let mut i: usize = 0;
    while i < raw.len()
        invariant
            line == views(raw@),
            names.len() == values.len(),
            i <= raw.len() + 1,
            options(line, 0) == (match options(line, i as int) {
                Ok(rest) => Ok(zipped(names@, values@) + rest),
                Err(e) => Err(e),
            }),
            i <= raw.len(),
        decreases raw.len() - i,
    {
        let key = raw[i].as_str();
        assert(line[i as int] == key@);
        if !starts_with_dashes(key) {
            return Err(quoted("unexpected argument '", key, "'"));
        }
        let name = key.substring_char(2, key.unicode_len());
        assert(name@ =~= key@.skip(2));
        if raw.len() - i < 2 {
            let mut e = "missing value for --".to_owned();
            e.append(name);
            return Err(e);
        }
        let ghost before = zipped(names@, values@);
        names.push(name.to_owned());
        values.push(raw[i + 1].clone());
        proof {
            assert(line[i + 1] == raw[i + 1]@);
            assert(zipped(names@, values@) =~= before.push((name@, line[i + 1])));
            if let Ok(rest) = options(line, i + 2) {
                assert(before + (seq![(name@, line[i + 1])] + rest) =~= zipped(names@, values@)
                    + rest);
            }
        }
        i = i + 2;
    }
    let ghost opts = zipped(names@, values@);
    proof {
        assert(opts + Seq::<(Seq<char>, Seq<char>)>::empty() =~= opts);
        assert(options(line, 0) == Result::<Seq<(Seq<char>, Seq<char>)>, Seq<char>>::Ok(opts));
    }
    let protocol_name = match look_up(&names, &values, "protocol") {
        Some(s) => s,
        None => {
            return Err("missing required --protocol".to_owned());
        },
    };
    let protocol = match Protocol::parse(protocol_name.as_str()) {
        Ok(p) => p,
        Err(e) => {
            return Err(e);
        },
    };
    let size = match look_up(&names, &values, "n") {
        Some(s) => s,
        None => {
            return Err("missing required --n".to_owned());
        },
    };
    let n: usize = match read_number(size.as_str(), usize::MAX as u64) {
        Some(v) => v as usize,
        None => {
            return Err("bad --n".to_owned());
        },
    };
    if n < 2 {
        return Err("--n must be >= 2".to_owned());
    }
    let threshold: usize = match number_of(
        &names,
        &values,
        "threshold",
        usize::MAX as u64,
        (n / 2) as u64,
    ) {
        Some(v) => v as usize,
        None => {
            return Err("bad --threshold".to_owned());
        },
    };
    if threshold < 1 || threshold >= n {
        let mut e = "--threshold (degree t) must satisfy 1 <= t < n (got t=".to_owned();
        e.append(dec(threshold).as_str());
        e.append(", n=");
        e.append(dec(n).as_str());
        e.append(")");
        return Err(e);
    }
    let malicious_spec = match look_up(&names, &values, "malicious") {
        Some(s) => s,
        None => String::new(),
    };
    let latency_ms: u64 = match number_of(&names, &values, "latency-ms", u64::MAX, 0) {
        Some(v) => v,
        None => {
            return Err("bad --latency-ms".to_owned());
        },
    };
    let seed: u64 = match number_of(&names, &values, "seed", u64::MAX, 0) {
        Some(v) => v,
        None => {
            return Err("bad --seed".to_owned());
        },
    };
    let samples: usize = match number_of(&names, &values, "samples", usize::MAX as u64, 10) {
        Some(v) => v as usize,
        None => {
            return Err("bad --samples".to_owned());
        },
    };
    let out = look_up(&names, &values, "out");
    Ok(
        Args {
            protocol,
            n,
            threshold,
            malicious_spec,
            latency_ms,
            seed,
            samples: if samples < 1 {
                1
            } else {
                samples
            },
            out,
        },
    )
}

} // verus!
