//! What a list of malicious dealers such as `1:z,4:xy` says.
use crate::bench::protocol::{entries_meaning, entry_meaning, malicious_meaning, Layer, Protocol};
use crate::laws::texts::{
    blank, free_of, law_ascii_white, law_joined, law_number_reads_decimal, law_position,
    law_split_of_joined, law_trimmed, lemma_decimal, solid,
};
use crate::parse::{is_white, number, pieces, trimmed};
use crate::text::{decimal, joined};
use vstd::prelude::*;

verus! {

/// The outcome of reading an entry.
pub type Read = Result<Option<(usize, Layer)>, Seq<char>>;

/// The outcome of reading a list.
pub type ReadAll = Result<Map<usize, Layer>, Seq<char>>;

proof fn lemma_digits_solid(n: nat)
    ensures
        solid(decimal(n)),
        free_of(decimal(n), ':'),
        free_of(decimal(n), ','),
        decimal(n).len() > 0,
{
    lemma_decimal(n);
    let s = decimal(n);
    assert forall|i: int| 0 <= i < s.len() implies !is_white(#[trigger] s[i]) by {
        assert('0' <= s[i] && s[i] <= '9');
    }
}

/// An entry is a number, a colon and a layer, with white space wherever it likes. It names the dealer
/// of that number and the layer; a layer other than the two is refused, and so is the second layer
/// where the protocol does not have it.
pub proof fn law_entry(
    before: Seq<char>,
    id: nat,
    between: Seq<char>,
    behind: Seq<char>,
    layer: Seq<char>,
    after: Seq<char>,
    protocol: Protocol,
)
    requires
        blank(before),
        blank(between),
        blank(behind),
        blank(after),
        id <= usize::MAX,
        solid(layer),
        layer.len() > 0,
    ensures
        ({
            let entry = before + (decimal(id) + between + seq![':'] + behind + layer) + after;
            let read = entry_meaning(entry, protocol);
            &&& layer == "z"@ ==> read == Read::Ok(Some((id as usize, Layer::Z)))
            &&& layer == "xy"@ && protocol != Protocol::Gurkan ==> read == Read::Ok(
                Some((id as usize, Layer::Xy)),
            )
            &&& layer == "xy"@ && protocol == Protocol::Gurkan ==> read == Read::Err(
                "protocol gurkan has no xy layer; rejected malicious entry '"@ + (decimal(id)
                    + between + seq![':'] + behind + layer) + "'"@,
            )
            &&& layer != "z"@ && layer != "xy"@ ==> read == Read::Err(
                "unknown layer '"@ + layer + "' (expected z|xy)"@,
            )
        }),
{
    reveal_strlit("z");
    reveal_strlit("xy");
    lemma_digits_solid(id);
    let e = decimal(id) + between + seq![':'] + behind + layer;
    assert(e[0] == decimal(id)[0]);
    assert(e.last() == layer.last());
    law_trimmed(before, e, after);
    let head = decimal(id) + between;
    assert forall|i: int| 0 <= i < head.len() implies #[trigger] head[i] != ':' by {
        if i < decimal(id).len() {
            assert(head[i] == decimal(id)[i]);
        } else {
            assert(is_white(between[i - decimal(id).len()]));
            law_ascii_white(':');
        }
    }
    law_position(head, ':', behind + layer);
    assert(e =~= head + seq![':'] + (behind + layer));
    let k = head.len() as int;
    assert(e.take(k) =~= Seq::<char>::empty() + decimal(id) + between);
    assert(e.skip(k + 1) =~= behind + layer + Seq::<char>::empty());
    law_trimmed(Seq::empty(), decimal(id), between);
    law_trimmed(behind, layer, Seq::empty());
    law_number_reads_decimal(id, usize::MAX as int);
}

/// An entry of white space says nothing, and one without a colon is refused.
pub proof fn law_faulty_entry(
    before: Seq<char>,
    entry: Seq<char>,
    after: Seq<char>,
    protocol: Protocol,
)
    requires
        blank(before),
        blank(after),
        entry.len() > 0 ==> !is_white(entry[0]) && !is_white(entry.last()),
    ensures
        entry.len() == 0 ==> entry_meaning(before + entry + after, protocol) == Read::Ok(None),
        entry.len() > 0 && free_of(entry, ':') ==> entry_meaning(before + entry + after, protocol)
            == Read::Err("malicious entry '"@ + entry + "' must be id:layer"@),
{
    law_trimmed(before, entry, after);
    if free_of(entry, ':') {
        law_position(entry, ':', Seq::empty());
    }
}

/// What stands before the first colon must be a number.
pub proof fn law_entry_without_number(id: Seq<char>, layer: Seq<char>, protocol: Protocol)
    requires
        id.len() > 0,
        !is_white(id[0]),
        free_of(id, ':'),
        layer.len() > 0,
        !is_white(layer.last()),
        number(trimmed(id), usize::MAX as int) is None,
    ensures
        entry_meaning(id + seq![':'] + layer, protocol) == Read::Err(
            "bad id in '"@ + (id + seq![':'] + layer) + "'"@,
        ),
{
    let e = id + seq![':'] + layer;
    assert(e[0] == id[0]);
    assert(e.last() == layer.last());
    law_trimmed(Seq::empty(), e, Seq::empty());
    assert(Seq::<char>::empty() + e + Seq::<char>::empty() =~= e);
    law_position(id, ':', layer);
    assert(e.take(id.len() as int) =~= id);
}

/// Entry `k` is for dealer `id`.
pub open spec fn names(entries: Seq<Seq<char>>, protocol: Protocol, k: int, id: usize) -> bool {
    entry_meaning(entries[k], protocol) matches Ok(Some(pair)) && pair.0 == id
}

proof fn lemma_entries(entries: Seq<Seq<char>>, protocol: Protocol)
    ensures
        match entries_meaning(entries, protocol) {
            Ok(m) => {
                &&& forall|k: int|
                    0 <= k < entries.len() ==> entry_meaning(#[trigger] entries[k], protocol) is Ok
                &&& forall|id: usize| #[trigger]
                    m.contains_key(id) ==> exists|k: int|
                        0 <= k < entries.len() && #[trigger] names(entries, protocol, k, id)
                &&& forall|k: int, id: usize|
                    0 <= k < entries.len() && #[trigger] names(entries, protocol, k, id) ==> {
                        &&& m.contains_key(id)
                        &&& (forall|j: int|
                            k < j < entries.len() ==> !#[trigger] names(entries, protocol, j, id))
                            ==> m[id] == (entry_meaning(entries[k], protocol)->Ok_0->0).1
                    }
            },
            Err(e) => exists|k: int|
                {
                    &&& 0 <= k < entries.len()
                    &&& entry_meaning(#[trigger] entries[k], protocol) == Read::Err(e)
                    &&& forall|j: int|
                        0 <= j < k ==> entry_meaning(#[trigger] entries[j], protocol) is Ok
                },
        },
    decreases entries.len(),
{
    if entries.len() > 0 {
        let less = entries.drop_last();
        let n = less.len() as int;
        lemma_entries(less, protocol);
        assert forall|k: int| 0 <= k < n implies #[trigger] less[k] == entries[k] by {}
        match entries_meaning(less, protocol) {
            Ok(before) => {
                assert forall|k: int| 0 <= k < n implies entry_meaning(
                    #[trigger] entries[k],
                    protocol,
                ) is Ok by {
                    assert(entry_meaning(less[k], protocol) is Ok);
                }
                if let Ok(m) = entries_meaning(entries, protocol) {
                    assert forall|id: usize| #[trigger] m.contains_key(id) implies exists|k: int|
                        0 <= k < entries.len() && #[trigger] names(entries, protocol, k, id) by {
                        if before.contains_key(id) {
                            let k = choose|k: int|
                                0 <= k < less.len() && #[trigger] names(less, protocol, k, id);
                            assert(names(entries, protocol, k, id));
                        } else {
                            assert(names(entries, protocol, n, id));
                        }
                    }
                    assert forall|k: int, id: usize|
                        0 <= k < entries.len() && #[trigger] names(
                            entries,
                            protocol,
                            k,
                            id,
                        ) implies {
                        &&& m.contains_key(id)
                        &&& (forall|j: int|
                            k < j < entries.len() ==> !#[trigger] names(entries, protocol, j, id))
                            ==> m[id] == (entry_meaning(entries[k], protocol)->Ok_0->0).1
                    } by {
                        if k < n {
                            assert(names(less, protocol, k, id));
                            if forall|j: int|
                                k < j < entries.len() ==> !#[trigger] names(
                                    entries,
                                    protocol,
                                    j,
                                    id,
                                ) {
                                assert forall|j: int| k < j < less.len() implies !#[trigger] names(
                                    less,
                                    protocol,
                                    j,
                                    id,
                                ) by {
                                    assert(!names(entries, protocol, j, id));
                                }
                                assert(!names(entries, protocol, n, id));
                            }
                        }
                    }
                } else {
                    assert(entry_meaning(entries[n], protocol) is Err);
                }
            },
            Err(e) => {
                let k = choose|k: int|
                    {
                        &&& 0 <= k < less.len()
                        &&& entry_meaning(#[trigger] less[k], protocol) == Read::Err(e)
                        &&& forall|j: int|
                            0 <= j < k ==> entry_meaning(#[trigger] less[j], protocol) is Ok
                    };
                assert(entry_meaning(entries[k], protocol) == Read::Err(e));
                assert forall|j: int| 0 <= j < k implies entry_meaning(
                    #[trigger] entries[j],
                    protocol,
                ) is Ok by {
                    assert(entry_meaning(less[j], protocol) is Ok);
                }
            },
        }
    }
}

/// A blank list, and the word `none`, name nobody.
pub proof fn law_nobody_malicious(before: Seq<char>, after: Seq<char>, protocol: Protocol)
    requires
        blank(before),
        blank(after),
    ensures
        malicious_meaning(before + after, protocol) == ReadAll::Ok(Map::empty()),
        malicious_meaning(before + "none"@ + after, protocol) == ReadAll::Ok(Map::empty()),
{
    reveal_strlit("none");
    law_trimmed(before, Seq::empty(), after);
    assert(before + Seq::<char>::empty() + after =~= before + after);
    law_ascii_white('n');
    law_ascii_white('e');
    law_trimmed(before, "none"@, after);
}

/// The entries of a list stand between commas. The list names the dealers that its entries name, and
/// of several entries for one dealer the last stands; the first entry that is refused is the reason
/// for refusing the list, and nothing else is.
pub proof fn law_list(text: Seq<char>, protocol: Protocol, k: int, id: usize)
    requires
        trimmed(text).len() > 0,
        trimmed(text) != "none"@,
    ensures
        ({
            let entries = pieces(trimmed(text), ',');
            match malicious_meaning(text, protocol) {
                Ok(m) => {
                    &&& 0 <= k < entries.len() ==> entry_meaning(entries[k], protocol) is Ok
                    &&& m.contains_key(id) <==> exists|j: int|
                        0 <= j < entries.len() && #[trigger] names(entries, protocol, j, id)
                    &&& 0 <= k < entries.len() && names(entries, protocol, k, id) && (forall|j: int|
                        k < j < entries.len() ==> !#[trigger] names(entries, protocol, j, id))
                        ==> m[id] == (entry_meaning(entries[k], protocol)->Ok_0->0).1
                },
                Err(e) => exists|j: int|
                    {
                        &&& 0 <= j < entries.len()
                        &&& entry_meaning(#[trigger] entries[j], protocol) == Read::Err(e)
                        &&& forall|i: int|
                            0 <= i < j ==> entry_meaning(#[trigger] entries[i], protocol) is Ok
                    },
            }
        }),
{
    lemma_entries(pieces(trimmed(text), ','), protocol);
}

/// The entry of a dealer and a layer, written without white space.
pub open spec fn written(id: usize, layer: Layer) -> Seq<char> {
    decimal(id as nat) + seq![':'] + match layer {
        Layer::Z => "z"@,
        Layer::Xy => "xy"@,
    }
}

/// The entries of dealers and layers.
pub open spec fn all_written(dealers: Seq<(usize, Layer)>) -> Seq<Seq<char>> {
    dealers.map_values(|d: (usize, Layer)| written(d.0, d.1))
}

proof fn lemma_written(id: usize, layer: Layer, protocol: Protocol)
    requires
        layer == Layer::Z || protocol != Protocol::Gurkan,
    ensures
        entry_meaning(written(id, layer), protocol) == Read::Ok(Some((id, layer))),
        free_of(written(id, layer), ','),
        written(id, layer).len() > 0,
        '0' <= written(id, layer)[0] <= '9',
        !is_white(written(id, layer).last()),
{
    reveal_strlit("z");
    reveal_strlit("xy");
    let none = Seq::<char>::empty();
    let name = match layer {
        Layer::Z => "z"@,
        Layer::Xy => "xy"@,
    };
    law_entry(none, id as nat, none, none, name, none, protocol);
    let s = written(id, layer);
    assert(none + (decimal(id as nat) + none + seq![':'] + none + name) + none =~= s);
    lemma_decimal(id as nat);
    lemma_digits_solid(id as nat);
    assert forall|i: int| 0 <= i < s.len() implies #[trigger] s[i] != ',' by {
        if i < decimal(id as nat).len() {
            assert(s[i] == decimal(id as nat)[i]);
        }
    }
    assert(s[0] == decimal(id as nat)[0]);
    assert(s.last() == name.last());
}

proof fn lemma_joined_ends(parts: Seq<Seq<char>>, sep: Seq<char>)
    requires
        parts.len() > 0,
        forall|i: int| 0 <= i < parts.len() ==> (#[trigger] parts[i]).len() > 0,
    ensures
        joined(parts, sep).len() > 0,
        joined(parts, sep)[0] == parts[0][0],
        joined(parts, sep).last() == parts.last().last(),
    decreases parts.len(),
{
    let less = parts.drop_last();
    if less.len() == 0 {
        law_joined(parts, sep, parts[0]);
        assert(parts =~= seq![parts[0]]);
    } else {
        lemma_joined_ends(less, sep);
        law_joined(less, sep, parts.last());
        assert(less.push(parts.last()) =~= parts);
        assert(parts.last().len() > 0);
    }
}

/// What is written is read back: a list of dealers and layers gives each of the dealers its layer, the
/// last one given, and names nobody else.
pub proof fn law_list_reads_back(
    dealers: Seq<(usize, Layer)>,
    protocol: Protocol,
    k: int,
    id: usize,
)
    requires
        dealers.len() > 0,
        forall|i: int|
            0 <= i < dealers.len() ==> (#[trigger] dealers[i]).1 == Layer::Z || protocol
                != Protocol::Gurkan,
    ensures
        ({
            let read = malicious_meaning(joined(all_written(dealers), seq![',']), protocol);
            &&& read is Ok
            &&& read->Ok_0.contains_key(id) <==> exists|i: int|
                0 <= i < dealers.len() && (#[trigger] dealers[i]).0 == id
            &&& 0 <= k < dealers.len() && (forall|i: int|
                k < i < dealers.len() ==> (#[trigger] dealers[i]).0 != dealers[k].0)
                ==> read->Ok_0[dealers[k].0] == dealers[k].1
        }),
{
    let entries = all_written(dealers);
    let text = joined(entries, seq![',']);
    assert forall|i: int| 0 <= i < entries.len() implies {
        &&& free_of(#[trigger] entries[i], ',')
        &&& entries[i].len() > 0
        &&& '0' <= entries[i][0] <= '9'
        &&& !is_white(entries[i].last())
        &&& entry_meaning(entries[i], protocol) == Read::Ok(Some(dealers[i]))
    } by {
        assert(dealers[i].1 == Layer::Z || protocol != Protocol::Gurkan);
        lemma_written(dealers[i].0, dealers[i].1, protocol);
    }
    lemma_joined_ends(entries, seq![',']);
    law_split_of_joined(entries, ',');
    law_ascii_white(text[0]);
    law_trimmed(Seq::empty(), text, Seq::empty());
    assert(Seq::<char>::empty() + text + Seq::<char>::empty() =~= text);
    reveal_strlit("none");
    lemma_entries(entries, protocol);
    let read = malicious_meaning(text, protocol);
    assert(read == entries_meaning(entries, protocol));
    if read is Err {
        let j = choose|j: int|
            0 <= j < entries.len() && entry_meaning(#[trigger] entries[j], protocol) is Err;
        assert(free_of(entries[j], ','));
    }
    let m = read->Ok_0;
    if m.contains_key(id) {
        let j = choose|j: int|
            0 <= j < entries.len() && #[trigger] names(entries, protocol, j, id);
        assert(free_of(entries[j], ','));
        assert(dealers[j].0 == id);
    }
    if exists|i: int| 0 <= i < dealers.len() && (#[trigger] dealers[i]).0 == id {
        let i = choose|i: int| 0 <= i < dealers.len() && (#[trigger] dealers[i]).0 == id;
        assert(free_of(entries[i], ','));
        assert(names(entries, protocol, i, id));
    }
    if 0 <= k < dealers.len() && (forall|i: int|
        k < i < dealers.len() ==> (#[trigger] dealers[i]).0 != dealers[k].0) {
        let own = dealers[k].0;
        assert(free_of(entries[k], ','));
        assert(names(entries, protocol, k, own));
        assert forall|j: int| k < j < entries.len() implies !#[trigger] names(
            entries,
            protocol,
            j,
            own,
        ) by {
            assert(free_of(entries[j], ','));
            assert(dealers[j].0 != own);
        }
    }
}

} // verus!
