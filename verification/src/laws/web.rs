//! What the web interface answers, in terms of the request.
use crate::laws::texts::{
    blank, law_number_reads_decimal, law_trimmed, law_trimmed_end, law_word, lemma_decimal, solid,
};
use crate::parse::{is_white, number, trimmed};
use crate::sim::malice::Malice;
use crate::text::{decimal, joined, joined_upto};
use crate::web::{
    begins, entries, entry, head_text, header_of, lower, method_of, numbers_of, path_of, route_of,
    with_listed, Configuration, Header, Route,
};
use vstd::prelude::*;

verus! {

broadcast use {vstd::laws_cmp::group_laws_cmp, vstd::std_specs::btree::group_btree_axioms};

/// Seven pairs of a method and a path are served, each by its own route; anything else is not found.
pub proof fn law_routes(method: Seq<char>, path: Seq<char>)
    ensures
        ({
            let r = route_of(method, path);
            let (get, post) = (method == "GET"@, method == "POST"@);
            &&& r == Route::Page <==> get && path == "/"@
            &&& r == Route::Script <==> get && path == "/app.js"@
            &&& r == Route::Style <==> get && path == "/style.css"@
            &&& r == Route::State <==> get && path == "/api/state"@
            &&& r == Route::Configure <==> post && path == "/api/configure"@
            &&& r == Route::Advance <==> post && path == "/api/advance"@
            &&& r == Route::Reset <==> post && path == "/api/reset"@
        }),
{
    reveal_strlit("GET");
    reveal_strlit("POST");
    reveal_strlit("/");
    reveal_strlit("/app.js");
    reveal_strlit("/style.css");
    reveal_strlit("/api/state");
    reveal_strlit("/api/configure");
    reveal_strlit("/api/advance");
    reveal_strlit("/api/reset");
    assert("GET"@.len() == 3 && "POST"@.len() == 4);
    assert("/"@.len() == 1 && "/app.js"@.len() == 7 && "/style.css"@.len() == 10
        && "/api/state"@.len() == 10 && "/api/configure"@.len() == 14 && "/api/advance"@.len() == 12
        && "/api/reset"@.len() == 10);
    assert("/style.css"@[1] == 's' && "/api/state"@[1] == 'a');
}

/// What is found is answered with status 200, what is not with 404, and each with the type of its
/// content.
pub proof fn law_replies(r: Route)
    ensures
        r == Route::NotFound ==> r.status_text() == "404 Not Found"@,
        r != Route::NotFound ==> r.status_text() == "200 OK"@,
        r == Route::Page ==> r.content_type_text() == "text/html; charset=utf-8"@,
        r == Route::Script ==> r.content_type_text() == "application/javascript; charset=utf-8"@,
        r == Route::Style ==> r.content_type_text() == "text/css; charset=utf-8"@,
        r == Route::NotFound ==> r.content_type_text() == "text/plain; charset=utf-8"@,
        r == Route::State || r == Route::Configure || r == Route::Advance || r == Route::Reset
            ==> r.content_type_text() == "application/json; charset=utf-8"@,
{
}

/// A request line holds the method and the path, the path up to the next white space; where there is
/// no path it is the root.
pub proof fn law_request_line(
    before: Seq<char>,
    method: Seq<char>,
    between: Seq<char>,
    path: Seq<char>,
    rest: Seq<char>,
)
    requires
        blank(before),
        solid(method),
        method.len() > 0,
        blank(between),
        between.len() > 0,
        solid(path),
        path.len() > 0 || rest.len() == 0,
        rest.len() > 0 ==> is_white(rest[0]),
    ensures
        ({
            let line = before + method + (between + path + rest);
            &&& method_of(line) == method
            &&& path.len() > 0 ==> path_of(line) == path
            &&& path.len() == 0 ==> path_of(line) == "/"@
        }),
{
    let tail = between + path + rest;
    assert(tail[0] == between[0]);
    law_word(before, method, tail);
    law_word(between, path, rest);
}

/// Upper-case ASCII letters have a lower case; nothing else changes.
pub proof fn law_lower(c: char, i: int)
    ensures
        0 <= i < 26 ==> lower((0x41 + i) as char) == (0x61 + i) as char,
        !('A' <= c <= 'Z') ==> lower(c) == c,
{
}

/// An empty line ends the head.
pub proof fn law_head_ends(line: Seq<char>)
    requires
        blank(line),
    ensures
        header_of(line) == Header::End,
{
    law_trimmed_end(Seq::empty(), line);
    assert(Seq::<char>::empty() + line =~= line);
}

/// A text is a name up to the case of ASCII letters, the name being in lower case.
pub open spec fn same_name(s: Seq<char>, name: Seq<char>) -> bool {
    &&& s.len() == name.len()
    &&& forall|i: int|
        0 <= i < s.len() ==> #[trigger] s[i] == name[i] || ('a' <= name[i] <= 'z' && s[i] as int
            == name[i] as int - 32)
}

/// The length of the body is the number behind the name, in whatever case the name is written and
/// with white space round the number or not.
pub proof fn law_content_length(
    name: Seq<char>,
    before: Seq<char>,
    n: nat,
    after: Seq<char>,
)
    requires
        same_name(name, "content-length:"@),
        blank(before),
        blank(after),
        n <= usize::MAX,
    ensures
        header_of(name + before + decimal(n) + after) == Header::Length(n as usize),
{
    reveal_strlit("content-length:");
    let prefix = "content-length:"@;
    lemma_decimal(n);
    let t = name + before + decimal(n);
    let last = decimal(n).last();
    assert('0' <= last <= '9') by {
        let i = decimal(n).len() - 1;
        assert('0' <= decimal(n)[i] && decimal(n)[i] <= '9');
    }
    assert('0' <= decimal(n)[0] && decimal(n)[0] <= '9');
    assert(t.last() == last);
    law_trimmed_end(t, after);
    assert forall|i: int| 0 <= i < prefix.len() implies lower(#[trigger] t[i]) == prefix[i] by {
        assert(t[i] == name[i]);
    }
    assert(begins(t, prefix));
    assert(t.skip(prefix.len() as int) =~= before + decimal(n) + Seq::<char>::empty());
    law_trimmed(before, decimal(n), Seq::empty());
    law_number_reads_decimal(n, usize::MAX as int);
}

/// A length that is no number counts as zero.
pub proof fn law_unreadable_length(name: Seq<char>, value: Seq<char>)
    requires
        same_name(name, "content-length:"@),
        value.len() > 0,
        !is_white(value.last()),
        number(trimmed(value), usize::MAX as int) is None,
    ensures
        header_of(name + value) == Header::Length(0),
{
    reveal_strlit("content-length:");
    let prefix = "content-length:"@;
    let t = name + value;
    assert(t.last() == value.last());
    law_trimmed_end(t, Seq::empty());
    assert(t + Seq::<char>::empty() =~= t);
    assert forall|i: int| 0 <= i < prefix.len() implies lower(#[trigger] t[i]) == prefix[i] by {
        assert(t[i] == name[i]);
    }
    assert(t.skip(prefix.len() as int) =~= value);
}

/// A line of another name is passed over.
pub proof fn law_other_header(line: Seq<char>, i: int)
    requires
        line.len() > 0,
        !is_white(line.last()),
        0 <= i < 15,
        line.len() <= i || (line[i] != "content-length:"@[i] && line[i] as int
            != "content-length:"@[i] as int - 32),
    ensures
        header_of(line) == Header::Other,
{
    reveal_strlit("content-length:");
    let prefix = "content-length:"@;
    law_trimmed_end(line, Seq::empty());
    assert(line + Seq::<char>::empty() =~= line);
    if begins(line, prefix) {
        assert(lower(line[i]) == prefix[i]);
    }
}

/// The head of a reply is five lines, the status, the type of the content, its length and two that are
/// always the same, and an empty line.
pub proof fn law_reply_head(status: Seq<char>, content_type: Seq<char>, len: nat)
    ensures
        head_text(status, content_type, len as int) == joined(
            seq![
                "HTTP/1.1 "@ + status,
                "Content-Type: "@ + content_type,
                "Content-Length: "@ + decimal(len),
                "Connection: close"@,
                "Cache-Control: no-store"@,
                ""@,
                ""@,
            ],
            "\r\n"@,
        ),
{
    reveal_strlit("");
    reveal_strlit("\r\n");
    reveal_strlit("Content-Type: ");
    reveal_strlit("\r\nContent-Type: ");
    reveal_strlit("Content-Length: ");
    reveal_strlit("\r\nContent-Length: ");
    reveal_strlit("Connection: close");
    reveal_strlit("Cache-Control: no-store");
    reveal_strlit("\r\nConnection: close\r\nCache-Control: no-store\r\n\r\n");
    reveal_with_fuel(joined_upto, 8);
    let end = "\r\n"@;
    assert("\r\nContent-Type: "@ =~= end + "Content-Type: "@);
    assert("\r\nContent-Length: "@ =~= end + "Content-Length: "@);
    assert("\r\nConnection: close\r\nCache-Control: no-store\r\n\r\n"@ =~= end
        + "Connection: close"@ + end + "Cache-Control: no-store"@ + end + ""@ + end + ""@);
    let parts = seq![
        "HTTP/1.1 "@ + status,
        "Content-Type: "@ + content_type,
        "Content-Length: "@ + decimal(len),
        "Connection: close"@,
        "Cache-Control: no-store"@,
        ""@,
        ""@,
    ];
    lemma_seven(parts, end);
    assert(head_text(status, content_type, len as int) =~= joined(parts, end));
}

proof fn lemma_seven(parts: Seq<Seq<char>>, sep: Seq<char>)
    requires
        parts.len() == 7,
    ensures
        joined(parts, sep) == parts[0] + sep + parts[1] + sep + parts[2] + sep + parts[3] + sep
            + parts[4] + sep + parts[5] + sep + parts[6],
{
    reveal_with_fuel(joined_upto, 8);
}

/// Pair `k` asks for a misbehaviour of participant `i`: its id reads as that number and its tag is
/// one of the three.
pub open spec fn asks(
    pairs: Seq<(Seq<char>, Option<Seq<char>>)>,
    k: int,
    i: usize,
    m: Malice,
) -> bool {
    &&& 0 <= k < pairs.len()
    &&& number(pairs[k].0, usize::MAX as int) == Some(i as int)
    &&& {
        ||| pairs[k].1 == Some("z"@) && m == Malice::ZCommitment
        ||| pairs[k].1 == Some("pedersen"@) && m == Malice::PedersenShare
        ||| pairs[k].1 == Some("both"@) && m == Malice::Both
    }
}

/// No pair from place `k` on asks for a misbehaviour of participant `i`.
pub open spec fn silent(
    pairs: Seq<(Seq<char>, Option<Seq<char>>)>,
    k: int,
    i: usize,
) -> bool {
    forall|j: int, m: Malice| k <= j < pairs.len() ==> !#[trigger] asks(pairs, j, i, m)
}

proof fn lemma_tags()
    ensures
        "z"@ != "pedersen"@,
        "z"@ != "both"@,
        "pedersen"@ != "both"@,
{
    reveal_strlit("z");
    reveal_strlit("pedersen");
    reveal_strlit("both");
    assert("z"@.len() == 1 && "pedersen"@.len() == 8 && "both"@.len() == 4);
}

proof fn lemma_entries(pairs: Seq<(Seq<char>, Option<Seq<char>>)>, n: int, i: usize)
    requires
        0 <= n <= pairs.len(),
    ensures
        entries(pairs, n).contains_key(i) ==> exists|k: int|
            0 <= k < n && #[trigger] asks(pairs, k, i, entries(pairs, n)[i]) && forall|
                j: int,
                m: Malice,
            |
                k < j < n ==> !#[trigger] asks(pairs, j, i, m),
        !entries(pairs, n).contains_key(i) ==> forall|j: int, m: Malice|
            0 <= j < n ==> !#[trigger] asks(pairs, j, i, m),
    decreases n,
{
    if n > 0 {
        lemma_entries(pairs, n - 1, i);
        lemma_tags();
        let pair = pairs[n - 1];
        let now = entry(pair.0, pair.1);
        crate::laws::texts::law_number_nonnegative(pair.0, usize::MAX as int);
        crate::laws::texts::law_no_number(pair.0, usize::MAX as int, 0);
        if now is Some && (now->0).0 == i {
            assert(asks(pairs, n - 1, i, (now->0).1));
        } else {
            assert forall|m: Malice| !#[trigger] asks(pairs, n - 1, i, m) by {}
            assert(entries(pairs, n).contains_key(i) == entries(pairs, n - 1).contains_key(i));
            if entries(pairs, n).contains_key(i) {
                let m0 = entries(pairs, n - 1)[i];
                assert(entries(pairs, n)[i] == m0);
                let k = choose|k: int|
                    0 <= k < n - 1 && #[trigger] asks(pairs, k, i, m0) && forall|j: int, m: Malice|
                        k < j < n - 1 ==> !#[trigger] asks(pairs, j, i, m);
                assert(asks(pairs, k, i, entries(pairs, n)[i]));
                assert forall|j: int, m: Malice| k < j < n implies !#[trigger] asks(
                    pairs,
                    j,
                    i,
                    m,
                ) by {
                    assert(j < n - 1 || j == n - 1);
                }
            }
        }
    }
}

proof fn lemma_listed(named: Map<usize, Malice>, ids: Seq<u64>, n: int, i: usize)
    requires
        0 <= n <= ids.len(),
    ensures
        named.contains_key(i) ==> with_listed(named, ids, n).contains_key(i) && with_listed(
            named,
            ids,
            n,
        )[i] == named[i],
        !named.contains_key(i) ==> (with_listed(named, ids, n).contains_key(i) <==> exists|k: int|
            0 <= k < n && (#[trigger] ids[k]) as usize == i),
        !named.contains_key(i) && with_listed(named, ids, n).contains_key(i) ==> with_listed(
            named,
            ids,
            n,
        )[i] == Malice::Both,
    decreases n,
{
    if n > 0 {
        lemma_listed(named, ids, n - 1, i);
        if ids[n - 1] as usize == i {
        }
    }
}

/// A request's misbehaviour: the last pair that asks for one of a participant decides; a participant
/// that no pair speaks of corrupts both layers if it is on the list; everybody else is honest.
pub proof fn law_requested_malice(
    pairs: Seq<(Seq<char>, Option<Seq<char>>)>,
    ids: Seq<u64>,
    i: usize,
    k: int,
    m: Malice,
)
    ensures
        ({
            let all = with_listed(entries(pairs, pairs.len() as int), ids, ids.len() as int);
            let on_list = exists|j: int| 0 <= j < ids.len() && (#[trigger] ids[j]) as usize == i;
            &&& asks(pairs, k, i, m) && silent(pairs, k + 1, i) ==> all.contains_key(i) && all[i]
                == m
            &&& silent(pairs, 0, i) && on_list ==> all.contains_key(i) && all[i] == Malice::Both
            &&& silent(pairs, 0, i) && !on_list ==> !all.contains_key(i)
        }),
{
    let n = pairs.len() as int;
    lemma_entries(pairs, n, i);
    lemma_tags();
    let named = entries(pairs, n);
    lemma_listed(named, ids, ids.len() as int, i);
    if asks(pairs, k, i, m) && silent(pairs, k + 1, i) {
        assert(named.contains_key(i));
        let q = choose|q: int|
            0 <= q < n && #[trigger] asks(pairs, q, i, named[i]) && forall|j: int, m: Malice|
                q < j < n ==> !#[trigger] asks(pairs, j, i, m);
        if q < k {
            assert(!asks(pairs, k, i, m));
        }
        if q > k {
            assert(!asks(pairs, q, i, named[i]));
        }
        assert(q == k);
    }
    if silent(pairs, 0, i) && named.contains_key(i) {
        let q = choose|q: int| 0 <= q < n && #[trigger] asks(pairs, q, i, named[i]);
        assert(!asks(pairs, q, i, named[i]));
    }
}

/// The numbers of a list stand in their order; what is no number is left out.
pub proof fn law_numbers_among(items: Seq<Option<u64>>, v: u64)
    ensures
        numbers_of(Seq::empty()) == Seq::<u64>::empty(),
        numbers_of(items.push(Some(v))) == numbers_of(items).push(v),
        numbers_of(items.push(None)) == numbers_of(items),
{
    assert(items.push(Some(v)).drop_last() =~= items);
    assert(items.push(None).drop_last() =~= items);
}

/// A request that says nothing asks for four participants, no threshold and no misbehaviour; what it
/// says is taken as it is.
pub proof fn law_configuration(
    c: Configuration,
    n: Option<u64>,
    degree: Option<u64>,
    members: Option<Seq<(Seq<char>, Option<Seq<char>>)>>,
    items: Option<Seq<Option<u64>>>,
)
    requires
        c.asked(n, degree, members, items),
    ensures
        n is None ==> c.n == 4,
        n is Some && n->0 <= usize::MAX ==> c.n == n->0,
        degree is None ==> c.degree is None,
        degree is Some && degree->0 <= usize::MAX ==> c.degree is Some && c.degree->0 == degree->0,
        members is None && items is None ==> c.malice@ == Map::<usize, Malice>::empty(),
        members is Some && items is Some ==> c.malice@ == with_listed(
            entries(members->0, members->0.len() as int),
            numbers_of(items->0),
            numbers_of(items->0).len() as int,
        ),
        members is Some && items is None ==> c.malice@ == with_listed(
            entries(members->0, members->0.len() as int),
            Seq::empty(),
            0,
        ),
        members is None && items is Some ==> c.malice@ == with_listed(
            entries(Seq::empty(), 0),
            numbers_of(items->0),
            numbers_of(items->0).len() as int,
        ),
{
}

} // verus!
