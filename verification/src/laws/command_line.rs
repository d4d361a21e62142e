//! What the command line of a benchmark says, in terms of its words.
use crate::bench::protocol::{command_line, lookup, options, ArgsView, Protocol};
use crate::laws::texts::law_number_reads_decimal;
use crate::parse::number;
use crate::text::decimal;
use vstd::prelude::*;

verus! {

/// The words are pairs, the first of each pair beginning with two dashes.
pub open spec fn paired(raw: Seq<Seq<char>>) -> bool {
    &&& raw.len() % 2 == 0
    &&& forall|i: int|
        0 <= i < raw.len() && i % 2 == 0 ==> dashed(#[trigger] raw[i])
}

/// A word begins with two dashes.
pub open spec fn dashed(word: Seq<char>) -> bool {
    word.len() >= 2 && word[0] == '-' && word[1] == '-'
}

/// The word at place `i` is the last that names the option, so that its value follows there.
pub open spec fn last_at(raw: Seq<Seq<char>>, key: Seq<char>, i: int) -> bool {
    &&& 0 <= i < raw.len() - 1
    &&& i % 2 == 0
    &&& raw[i] == key
    &&& forall|j: int| i < j < raw.len() && j % 2 == 0 ==> #[trigger] raw[j] != key
}

/// No word names the option.
pub open spec fn absent(raw: Seq<Seq<char>>, key: Seq<char>) -> bool {
    forall|j: int| 0 <= j < raw.len() && j % 2 == 0 ==> #[trigger] raw[j] != key
}

proof fn lemma_options(raw: Seq<Seq<char>>, i: int)
    requires
        0 <= i <= raw.len(),
    ensures
        match options(raw, i) {
            Ok(opts) => {
                &&& (raw.len() - i) % 2 == 0
                &&& opts.len() == (raw.len() - i) / 2
                &&& forall|k: int|
                    0 <= k < opts.len() ==> #[trigger] opts[k] == (
                        raw[i + 2 * k].skip(2),
                        raw[i + 2 * k + 1],
                    ) && dashed(raw[i + 2 * k])
            },
            Err(_) => (raw.len() - i) % 2 != 0 || exists|k: int|
                i <= k < raw.len() && (k - i) % 2 == 0 && !dashed(#[trigger] raw[k]),
        },
    decreases raw.len() - i,
{
    if i < raw.len() {
        if dashed(raw[i]) && i + 1 < raw.len() {
            lemma_options(raw, i + 2);
            if let Ok(rest) = options(raw, i + 2) {
                let opts = seq![(raw[i].skip(2), raw[i + 1])] + rest;
                assert forall|k: int| 0 <= k < opts.len() implies #[trigger] opts[k] == (
                    raw[i + 2 * k].skip(2),
                    raw[i + 2 * k + 1],
                ) && dashed(raw[i + 2 * k]) by {
                    if k > 0 {
                        assert(opts[k] == rest[k - 1]);
                        assert(i + 2 + 2 * (k - 1) == i + 2 * k);
                    }
                }
            } else if (raw.len() - (i + 2)) % 2 == 0 {
                let k = choose|k: int|
                    i + 2 <= k < raw.len() && (k - (i + 2)) % 2 == 0 && !dashed(
                        #[trigger] raw[k],
                    );
                assert((k - i) % 2 == 0);
            }
        } else if !dashed(raw[i]) {
            assert((i - i) % 2 == 0);
        }
    }
}

proof fn lemma_lookup(opts: Seq<(Seq<char>, Seq<char>)>, name: Seq<char>, k: int)
    requires
        0 <= k < opts.len(),
        opts[k].0 == name,
        forall|j: int| k < j < opts.len() ==> (#[trigger] opts[j]).0 != name,
    ensures
        lookup(opts, name) == Some(opts[k].1),
    decreases opts.len(),
{
    if k < opts.len() - 1 {
        assert(opts[opts.len() - 1].0 != name);
        lemma_lookup(opts.drop_last(), name, k);
    }
}

proof fn lemma_lookup_none(opts: Seq<(Seq<char>, Seq<char>)>, name: Seq<char>)
    requires
        forall|j: int| 0 <= j < opts.len() ==> (#[trigger] opts[j]).0 != name,
    ensures
        lookup(opts, name) is None,
    decreases opts.len(),
{
    if opts.len() > 0 {
        assert(opts[opts.len() - 1].0 != name);
        lemma_lookup_none(opts.drop_last(), name);
    }
}

proof fn lemma_name(word: Seq<char>, key: Seq<char>, name: Seq<char>)
    requires
        dashed(word),
        key == seq!['-', '-'] + name,
    ensures
        word == key <==> word.skip(2) == name,
{
    assert(word =~= seq!['-', '-'] + word.skip(2));
    assert(key.skip(2) =~= name);
}

/// The value of an option is the word behind its last name.
proof fn lemma_value(raw: Seq<Seq<char>>, key: Seq<char>, name: Seq<char>, i: int)
    requires
        options(raw, 0) is Ok,
        key == seq!['-', '-'] + name,
    ensures
        last_at(raw, key, i) ==> lookup(options(raw, 0)->Ok_0, name) == Some(raw[i + 1]),
        absent(raw, key) ==> lookup(options(raw, 0)->Ok_0, name) is None,
{
    lemma_options(raw, 0);
    let opts = options(raw, 0)->Ok_0;
    if last_at(raw, key, i) {
        let k = i / 2;
        assert(i == 2 * k);
        assert(opts[k] == (raw[2 * k].skip(2), raw[2 * k + 1]));
        lemma_name(raw[i], key, name);
        assert forall|j: int| k < j < opts.len() implies (#[trigger] opts[j]).0 != name by {
            assert(opts[j] == (raw[2 * j].skip(2), raw[2 * j + 1]));
            assert(raw[2 * j] != key);
            lemma_name(raw[2 * j], key, name);
        }
        lemma_lookup(opts, name, k);
    }
    if absent(raw, key) {
        assert forall|j: int| 0 <= j < opts.len() implies (#[trigger] opts[j]).0 != name by {
            assert(opts[j] == (raw[2 * j].skip(2), raw[2 * j + 1]));
            assert(raw[2 * j] != key);
            lemma_name(raw[2 * j], key, name);
        }
        lemma_lookup_none(opts, name);
    }
}

proof fn lemma_keys()
    ensures
        "--protocol"@ == seq!['-', '-'] + "protocol"@,
        "--n"@ == seq!['-', '-'] + "n"@,
        "--threshold"@ == seq!['-', '-'] + "threshold"@,
        "--malicious"@ == seq!['-', '-'] + "malicious"@,
        "--latency-ms"@ == seq!['-', '-'] + "latency-ms"@,
        "--seed"@ == seq!['-', '-'] + "seed"@,
        "--samples"@ == seq!['-', '-'] + "samples"@,
        "--out"@ == seq!['-', '-'] + "out"@,
{
    reveal_strlit("--protocol");
    reveal_strlit("protocol");
    assert("--protocol"@ =~= seq!['-', '-'] + "protocol"@);
    reveal_strlit("--n");
    reveal_strlit("n");
    assert("--n"@ =~= seq!['-', '-'] + "n"@);
    reveal_strlit("--threshold");
    reveal_strlit("threshold");
    assert("--threshold"@ =~= seq!['-', '-'] + "threshold"@);
    reveal_strlit("--malicious");
    reveal_strlit("malicious");
    assert("--malicious"@ =~= seq!['-', '-'] + "malicious"@);
    reveal_strlit("--latency-ms");
    reveal_strlit("latency-ms");
    assert("--latency-ms"@ =~= seq!['-', '-'] + "latency-ms"@);
    reveal_strlit("--seed");
    reveal_strlit("seed");
    assert("--seed"@ =~= seq!['-', '-'] + "seed"@);
    reveal_strlit("--samples");
    reveal_strlit("samples");
    assert("--samples"@ =~= seq!['-', '-'] + "samples"@);
    reveal_strlit("--out");
    reveal_strlit("out");
    assert("--out"@ =~= seq!['-', '-'] + "out"@);
}

/// An accepted command line is made of pairs, and names a protocol and a number of participants.
pub proof fn law_accepted_is_paired(raw: Seq<Seq<char>>)
    requires
        command_line(raw) is Ok,
    ensures
        paired(raw),
        !absent(raw, "--protocol"@),
        !absent(raw, "--n"@),
{
    lemma_keys();
    lemma_options(raw, 0);
    let opts = options(raw, 0)->Ok_0;
    assert forall|i: int| 0 <= i < raw.len() && i % 2 == 0 implies dashed(#[trigger] raw[i]) by {
        assert(i == 2 * (i / 2));
        assert(opts[i / 2] == (raw[2 * (i / 2)].skip(2), raw[2 * (i / 2) + 1]));
    }
    lemma_value(raw, "--protocol"@, "protocol"@, 0);
    lemma_value(raw, "--n"@, "n"@, 0);
}

/// The degree is the number behind the last `--threshold`; where there is none, it is half the
/// number of participants. It lies between one and the number of participants.
pub proof fn law_threshold(raw: Seq<Seq<char>>, args: ArgsView, i: int, t: nat)
    requires
        command_line(raw) == Result::<ArgsView, Seq<char>>::Ok(args),
    ensures
        last_at(raw, "--threshold"@, i) ==> number(raw[i + 1], usize::MAX as int) == Some(
            args.threshold,
        ),
        last_at(raw, "--threshold"@, i) && raw[i + 1] == decimal(t) ==> args.threshold == t,
        absent(raw, "--threshold"@) ==> args.threshold == args.n / 2,
        1 <= args.threshold < args.n,
{
    lemma_keys();
    lemma_value(raw, "--threshold"@, "threshold"@, i);
    law_number_reads_decimal(t, usize::MAX as int);
}

/// The number of participants is the number behind the last `--n`, and at least two.
pub proof fn law_participants(raw: Seq<Seq<char>>, args: ArgsView, i: int, n: nat)
    requires
        command_line(raw) == Result::<ArgsView, Seq<char>>::Ok(args),
        last_at(raw, "--n"@, i),
    ensures
        number(raw[i + 1], usize::MAX as int) == Some(args.n),
        raw[i + 1] == decimal(n) ==> args.n == n,
        args.n >= 2,
{
    lemma_keys();
    lemma_value(raw, "--n"@, "n"@, i);
    law_number_reads_decimal(n, usize::MAX as int);
}

/// The protocol is the one whose name stands behind the last `--protocol`.
pub proof fn law_protocol(raw: Seq<Seq<char>>, args: ArgsView, i: int)
    requires
        command_line(raw) == Result::<ArgsView, Seq<char>>::Ok(args),
        last_at(raw, "--protocol"@, i),
    ensures
        args.protocol == Protocol::Gurkan <==> raw[i + 1] == "gurkan"@,
        args.protocol == Protocol::Neji <==> raw[i + 1] == "neji"@,
        args.protocol == Protocol::Btsof <==> raw[i + 1] == "btsof"@,
        args.protocol == Protocol::Kalai2022 <==> raw[i + 1] == "kalai2022"@,
        args.protocol == Protocol::Aggregatable2025 <==> raw[i + 1] == "aggregatable2025"@,
{
    lemma_keys();
    lemma_value(raw, "--protocol"@, "protocol"@, i);
    lemma_labels();
}

proof fn lemma_labels()
    ensures
        "gurkan"@.len() == 6,
        "neji"@.len() == 4,
        "btsof"@.len() == 5,
        "kalai2022"@.len() == 9,
        "aggregatable2025"@.len() == 16,
{
    reveal_strlit("gurkan");
    reveal_strlit("neji");
    reveal_strlit("btsof");
    reveal_strlit("kalai2022");
    reveal_strlit("aggregatable2025");
}

/// The latency, the seed and the number of samples are the numbers behind the last words that name
/// them; without such a word they are zero, zero and ten. There is at least one sample.
pub proof fn law_numbers(raw: Seq<Seq<char>>, args: ArgsView, i: int, v: nat)
    requires
        command_line(raw) == Result::<ArgsView, Seq<char>>::Ok(args),
    ensures
        last_at(raw, "--latency-ms"@, i) ==> number(raw[i + 1], u64::MAX as int) == Some(
            args.latency_ms,
        ),
        last_at(raw, "--latency-ms"@, i) && raw[i + 1] == decimal(v) ==> args.latency_ms == v,
        absent(raw, "--latency-ms"@) ==> args.latency_ms == 0,
        last_at(raw, "--seed"@, i) ==> number(raw[i + 1], u64::MAX as int) == Some(args.seed),
        last_at(raw, "--seed"@, i) && raw[i + 1] == decimal(v) ==> args.seed == v,
        absent(raw, "--seed"@) ==> args.seed == 0,
        last_at(raw, "--samples"@, i) && number(raw[i + 1], usize::MAX as int) != Some(0int)
            ==> number(raw[i + 1], usize::MAX as int) == Some(args.samples),
        last_at(raw, "--samples"@, i) && number(raw[i + 1], usize::MAX as int) == Some(0int)
            ==> args.samples == 1,
        last_at(raw, "--samples"@, i) && raw[i + 1] == decimal(v) && v > 0 ==> args.samples == v,
        absent(raw, "--samples"@) ==> args.samples == 10,
        args.samples >= 1,
{
    lemma_keys();
    lemma_value(raw, "--latency-ms"@, "latency-ms"@, i);
    lemma_value(raw, "--seed"@, "seed"@, i);
    lemma_value(raw, "--samples"@, "samples"@, i);
    law_number_reads_decimal(v, u64::MAX as int);
    law_number_reads_decimal(v, usize::MAX as int);
    if last_at(raw, "--samples"@, i) {
        crate::laws::texts::law_number_nonnegative(raw[i + 1], usize::MAX as int);
    }
}

/// The list of malicious dealers and the file for the table are the words behind the last words that
/// name them, as they stand; without such a word the list is empty and there is no file.
pub proof fn law_texts(raw: Seq<Seq<char>>, args: ArgsView, i: int)
    requires
        command_line(raw) == Result::<ArgsView, Seq<char>>::Ok(args),
    ensures
        last_at(raw, "--malicious"@, i) ==> args.malicious_spec == raw[i + 1],
        absent(raw, "--malicious"@) ==> args.malicious_spec.len() == 0,
        last_at(raw, "--out"@, i) ==> args.out == Some(raw[i + 1]),
        absent(raw, "--out"@) ==> args.out is None,
{
    lemma_keys();
    lemma_value(raw, "--malicious"@, "malicious"@, i);
    lemma_value(raw, "--out"@, "out"@, i);
}

/// An option is left out, or a number within the bound is given for it.
pub open spec fn fits(raw: Seq<Seq<char>>, key: Seq<char>, i: int, max: int) -> bool {
    absent(raw, key) || (last_at(raw, key, i) && number(raw[i + 1], max) is Some)
}

/// A command line of pairs that names a protocol, at least two participants and, if any, a degree in
/// range and readable numbers is accepted, whatever else it holds.
pub proof fn law_sound_line_accepted(
    raw: Seq<Seq<char>>,
    at_protocol: int,
    at_n: int,
    at_threshold: int,
    at_latency: int,
    at_seed: int,
    at_samples: int,
)
    requires
        paired(raw),
        last_at(raw, "--protocol"@, at_protocol),
        ({
            let name = raw[at_protocol + 1];
            name == "gurkan"@ || name == "neji"@ || name == "btsof"@ || name == "kalai2022"@
                || name == "aggregatable2025"@
        }),
        last_at(raw, "--n"@, at_n),
        number(raw[at_n + 1], usize::MAX as int) is Some,
        number(raw[at_n + 1], usize::MAX as int)->0 >= 2,
        fits(raw, "--threshold"@, at_threshold, usize::MAX as int),
        !absent(raw, "--threshold"@) ==> 1 <= number(raw[at_threshold + 1], usize::MAX as int)->0
            < number(raw[at_n + 1], usize::MAX as int)->0,
        fits(raw, "--latency-ms"@, at_latency, u64::MAX as int),
        fits(raw, "--seed"@, at_seed, u64::MAX as int),
        fits(raw, "--samples"@, at_samples, usize::MAX as int),
    ensures
        command_line(raw) is Ok,
{
    lemma_keys();
    lemma_paired(raw);
    lemma_value(raw, "--protocol"@, "protocol"@, at_protocol);
    lemma_value(raw, "--n"@, "n"@, at_n);
    lemma_value(raw, "--threshold"@, "threshold"@, at_threshold);
    lemma_value(raw, "--latency-ms"@, "latency-ms"@, at_latency);
    lemma_value(raw, "--seed"@, "seed"@, at_seed);
    lemma_value(raw, "--samples"@, "samples"@, at_samples);
}

proof fn lemma_paired(raw: Seq<Seq<char>>)
    requires
        paired(raw),
    ensures
        options(raw, 0) is Ok,
{
    lemma_options(raw, 0);
    if options(raw, 0) is Err {
        let k = choose|k: int|
            0 <= k < raw.len() && (k - 0) % 2 == 0 && !dashed(#[trigger] raw[k]);
        assert(dashed(raw[k]));
    }
}

proof fn lemma_refused_from(raw: Seq<Seq<char>>, i: int, k: int)
    requires
        0 <= i <= k < raw.len(),
        (k - i) % 2 == 0,
        forall|j: int| i <= j < k && (j - i) % 2 == 0 ==> dashed(#[trigger] raw[j]),
        !dashed(raw[k]) || k == raw.len() - 1,
    ensures
        options(raw, i) == options(raw, k),
    decreases k - i,
{
    if i < k {
        assert(dashed(raw[i]));
        assert forall|j: int| i + 2 <= j < k && (j - (i + 2)) % 2 == 0 implies dashed(
            #[trigger] raw[j],
        ) by {
            assert((j - i) % 2 == 0);
        }
        lemma_refused_from(raw, i + 2, k);
    }
}

/// The first word in the place of a name that does not begin with two dashes is reported; a name
/// without a value is reported too.
pub proof fn law_malformed_line_refused(raw: Seq<Seq<char>>, k: int)
    requires
        0 <= k < raw.len(),
        k % 2 == 0,
        forall|j: int| 0 <= j < k && j % 2 == 0 ==> dashed(#[trigger] raw[j]),
        !dashed(raw[k]) || k == raw.len() - 1,
    ensures
        !dashed(raw[k]) ==> command_line(raw) == Result::<ArgsView, Seq<char>>::Err(
            "unexpected argument '"@ + raw[k] + "'"@,
        ),
        dashed(raw[k]) ==> command_line(raw) == Result::<ArgsView, Seq<char>>::Err(
            "missing value for --"@ + raw[k].skip(2),
        ),
{
    assert forall|j: int| 0 <= j < k && (j - 0) % 2 == 0 implies dashed(#[trigger] raw[j]) by {}
    lemma_refused_from(raw, 0, k);
}

/// What is missing, unreadable or out of range is refused, and the message says so: the protocol
/// first, then the number of participants, then the degree.
pub proof fn law_faulty_line_refused(raw: Seq<Seq<char>>, p: int, i: int, j: int)
    requires
        paired(raw),
    ensures
        absent(raw, "--protocol"@) ==> command_line(raw) == Result::<ArgsView, Seq<char>>::Err(
            "missing required --protocol"@,
        ),
        last_at(raw, "--protocol"@, p) && Protocol::named(raw[p + 1]) is None ==> command_line(raw)
            == Result::<ArgsView, Seq<char>>::Err(
            "unknown protocol '"@ + raw[p + 1]
                + "' (expected gurkan|neji|btsof|kalai2022|aggregatable2025)"@,
        ),
        last_at(raw, "--protocol"@, p) && Protocol::named(raw[p + 1]) is Some ==> {
            &&& absent(raw, "--n"@) ==> command_line(raw) == Result::<ArgsView, Seq<char>>::Err(
                "missing required --n"@,
            )
            &&& last_at(raw, "--n"@, i) ==> {
                let size = number(raw[i + 1], usize::MAX as int);
                &&& size is None ==> command_line(raw) == Result::<ArgsView, Seq<char>>::Err(
                    "bad --n"@,
                )
                &&& size is Some && size->0 < 2 ==> command_line(raw) == Result::<
                    ArgsView,
                    Seq<char>,
                >::Err("--n must be >= 2"@)
                &&& size is Some && size->0 >= 2 && last_at(raw, "--threshold"@, j) ==> {
                    let t = number(raw[j + 1], usize::MAX as int);
                    &&& t is None ==> command_line(raw) == Result::<ArgsView, Seq<char>>::Err(
                        "bad --threshold"@,
                    )
                    &&& t is Some && !(1 <= t->0 < size->0) ==> command_line(raw) == Result::<
                        ArgsView,
                        Seq<char>,
                    >::Err(
                        "--threshold (degree t) must satisfy 1 <= t < n (got t="@ + decimal(
                            t->0 as nat,
                        ) + ", n="@ + decimal(size->0 as nat) + ")"@,
                    )
                }
            }
        },
{
    lemma_keys();
    lemma_paired(raw);
    lemma_value(raw, "--protocol"@, "protocol"@, p);
    lemma_value(raw, "--n"@, "n"@, i);
    lemma_value(raw, "--threshold"@, "threshold"@, j);
}

/// A number that cannot be read is refused by its name: the latency first, then the seed, then the
/// number of samples.
pub proof fn law_unreadable_number_refused(
    raw: Seq<Seq<char>>,
    p: int,
    i: int,
    latency: int,
    seed: int,
    samples: int,
)
    requires
        paired(raw),
        last_at(raw, "--protocol"@, p),
        Protocol::named(raw[p + 1]) is Some,
        last_at(raw, "--n"@, i),
        number(raw[i + 1], usize::MAX as int) is Some,
        number(raw[i + 1], usize::MAX as int)->0 >= 2,
        absent(raw, "--threshold"@),
    ensures
        last_at(raw, "--latency-ms"@, latency) && number(raw[latency + 1], u64::MAX as int) is None
            ==> command_line(raw) == Result::<ArgsView, Seq<char>>::Err("bad --latency-ms"@),
        fits(raw, "--latency-ms"@, latency, u64::MAX as int) && last_at(raw, "--seed"@, seed)
            && number(raw[seed + 1], u64::MAX as int) is None ==> command_line(raw) == Result::<
            ArgsView,
            Seq<char>,
        >::Err("bad --seed"@),
        fits(raw, "--latency-ms"@, latency, u64::MAX as int) && fits(
            raw,
            "--seed"@,
            seed,
            u64::MAX as int,
        ) && last_at(raw, "--samples"@, samples) && number(
            raw[samples + 1],
            usize::MAX as int,
        ) is None ==> command_line(raw) == Result::<ArgsView, Seq<char>>::Err("bad --samples"@),
{
    lemma_keys();
    lemma_paired(raw);
    lemma_value(raw, "--protocol"@, "protocol"@, p);
    lemma_value(raw, "--n"@, "n"@, i);
    lemma_value(raw, "--threshold"@, "threshold"@, i);
    lemma_value(raw, "--latency-ms"@, "latency-ms"@, latency);
    lemma_value(raw, "--seed"@, "seed"@, seed);
    lemma_value(raw, "--samples"@, "samples"@, samples);
}

} // verus!
