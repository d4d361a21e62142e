//! The web interface of a session: requests and replies.
use crate::json::{
    items_under, json_items, json_members, json_number, member_views, members_under, number_under,
    text_view,
};
use crate::parse::{
    after_word, chars_of, next_word, number, read_number, trim, trim_end, trimmed, trimmed_end,
    word,
};
use crate::sim::malice::Malice;
use crate::text::{dec, decimal, same_text};
use std::collections::BTreeMap;
use vstd::prelude::*;

verus! {

broadcast use {vstd::laws_cmp::group_laws_cmp, vstd::std_specs::btree::group_btree_axioms};

/// What a request is for.
#[derive(Clone, Copy, Debug, PartialEq, Eq, Structural)]
pub enum Route {
    Page,
    Script,
    Style,
    State,
    Configure,
    Advance,
    Reset,
    NotFound,
}

/// The route of a method and a path.
pub open spec fn route_of(method: Seq<char>, path: Seq<char>) -> Route {
    if method == "GET"@ && path == "/"@ {
        Route::Page
    } else if method == "GET"@ && path == "/app.js"@ {
        Route::Script
    } else if method == "GET"@ && path == "/style.css"@ {
        Route::Style
    } else if method == "GET"@ && path == "/api/state"@ {
        Route::State
    } else if method == "POST"@ && path == "/api/configure"@ {
        Route::Configure
    } else if method == "POST"@ && path == "/api/advance"@ {
        Route::Advance
    } else if method == "POST"@ && path == "/api/reset"@ {
        Route::Reset
    } else {
        Route::NotFound
    }
}

/// Finds the route.
pub fn route(method: &str, path: &str) -> (r: Route)
    ensures
        r == route_of(method@, path@),
{
    let get = same_text(method, "GET");
    let post = same_text(method, "POST");
    if get && same_text(path, "/") {
        Route::Page
    } else if get && same_text(path, "/app.js") {
        Route::Script
    } else if get && same_text(path, "/style.css") {
        Route::Style
    } else if get && same_text(path, "/api/state") {
        Route::State
    } else if post && same_text(path, "/api/configure") {
        Route::Configure
    } else if post && same_text(path, "/api/advance") {
        Route::Advance
    } else if post && same_text(path, "/api/reset") {
        Route::Reset
    } else {
        Route::NotFound
    }
}

impl Route {
    pub open spec fn status_text(self) -> Seq<char> {
        if self == Route::NotFound {
            "404 Not Found"@
        } else {
            "200 OK"@
        }
    }

    pub open spec fn content_type_text(self) -> Seq<char> {
        match self {
            Route::Page => "text/html; charset=utf-8"@,
            Route::Script => "application/javascript; charset=utf-8"@,
            Route::Style => "text/css; charset=utf-8"@,
            Route::NotFound => "text/plain; charset=utf-8"@,
            _ => "application/json; charset=utf-8"@,
        }
    }

    /// The status of the reply.
    pub fn status(self) -> (r: &'static str)
        ensures
            r@ == self.status_text(),
    {
        match self {
            Route::NotFound => "404 Not Found",
            _ => "200 OK",
        }
    }

    /// The content type of the reply.
    pub fn content_type(self) -> (r: &'static str)
        ensures
            r@ == self.content_type_text(),
    {
        match self {
            Route::Page => "text/html; charset=utf-8",
            Route::Script => "application/javascript; charset=utf-8",
            Route::Style => "text/css; charset=utf-8",
            Route::NotFound => "text/plain; charset=utf-8",
            _ => "application/json; charset=utf-8",
        }
    }
}

/// The method of a request line: its first word.
pub open spec fn method_of(line: Seq<char>) -> Seq<char> {
    word(line)
}

/// The path of a request line: its second word, by default the root.
pub open spec fn path_of(line: Seq<char>) -> Seq<char> {
    let path = word(after_word(line));
    if path.len() == 0 {
        "/"@
    } else {
        path
    }
}

/// The method and the path of a request line.
pub fn request_line(line: &str) -> (r: (String, String))
    ensures
        r.0@ == method_of(line@),
        r.1@ == path_of(line@),
{
    let (method, rest) = next_word(line);
    let (path, _) = next_word(rest);
    let path = if path.unicode_len() == 0 {
        "/"
    } else {
        path
    };
    (method.to_owned(), path.to_owned())
}

/// The lower case of an ASCII letter; other characters stay.
pub open spec fn lower(c: char) -> char {
    if 'A' <= c && c <= 'Z' {
        (c as u32 + 32) as char
    } else {
        c
    }
}

/// The first characters are those of `prefix` up to the case of ASCII letters.
pub open spec fn begins(s: Seq<char>, prefix: Seq<char>) -> bool {
    &&& s.len() >= prefix.len()
    &&& forall|i: int| 0 <= i < prefix.len() ==> lower(#[trigger] s[i]) == prefix[i]
}

fn to_lower(c: char) -> (r: char)
    ensures
        r == lower(c),
{
    match c {
        'A' => 'a',
        'B' => 'b',
        'C' => 'c',
        'D' => 'd',
        'E' => 'e',
        'F' => 'f',
        'G' => 'g',
        'H' => 'h',
        'I' => 'i',
        'J' => 'j',
        'K' => 'k',
        'L' => 'l',
        'M' => 'm',
        'N' => 'n',
        'O' => 'o',
        'P' => 'p',
        'Q' => 'q',
        'R' => 'r',
        'S' => 's',
        'T' => 't',
        'U' => 'u',
        'V' => 'v',
        'W' => 'w',
        'X' => 'x',
        'Y' => 'y',
        'Z' => 'z',
        _ => c,
    }
}

fn begins_with(s: &str, prefix: &str) -> (r: bool)
    ensures
        r == begins(s@, prefix@),
{
    let (a, b) = (chars_of(s), chars_of(prefix));
    if a.len() < b.len() {
        return false;
    }
    for i in 0..b.len()
        invariant
            a@ == s@,
            b@ == prefix@,
            a.len() >= b.len(),
            forall|k: int| 0 <= k < i ==> lower(#[trigger] s@[k]) == prefix@[k],
    {
        if to_lower(a[i]) != b[i] {
            return false;
        }
    }
    true
}

/// One line of a request's head.
#[derive(Clone, Copy, Debug, PartialEq, Eq, Structural)]
pub enum Header {
    /// The empty line that ends the head.
    End,
    /// The length of the body.
    Length(usize),
    Other,
}

/// What a line of the head says. A length that cannot be read is zero.
pub open spec fn header_of(line: Seq<char>) -> Header {
    let t = trimmed_end(line);
    if t.len() == 0 {
        Header::End
    } else if begins(t, "content-length:"@) {
        match number(trimmed(t.skip("content-length:"@.len() as int)), usize::MAX as int) {
            Some(v) => Header::Length(v as usize),
            None => Header::Length(0),
        }
    } else {
        Header::Other
    }
}

/// Reads a line of the head.
pub fn header(line: &str) -> (r: Header)
    ensures
        r == header_of(line@),
{
    let t = trim_end(line);
    let n = t.unicode_len();
    if n == 0 {
        return Header::End;
    }
    let prefix = "content-length:";
    if begins_with(t, prefix) {
        let k = prefix.unicode_len();
        let rest = t.substring_char(k, n);
        assert(rest@ =~= t@.skip(k as int));
        match read_number(trim(rest), usize::MAX as u64) {
            Some(v) => Header::Length(v as usize),
            None => Header::Length(0),
        }
    } else {
        Header::Other
    }
}

/// The head of a reply.
pub open spec fn head_text(status: Seq<char>, content_type: Seq<char>, len: int) -> Seq<char> {
    "HTTP/1.1 "@ + status + "\r\nContent-Type: "@ + content_type + "\r\nContent-Length: "@
        + decimal(len as nat) + "\r\nConnection: close\r\nCache-Control: no-store\r\n\r\n"@
}

/// Writes the head of a reply with a body of the given length.
pub fn response_head(status: &str, content_type: &str, len: usize) -> (r: String)
    ensures
        r@ == head_text(status@, content_type@, len as int),
{
    let mut r = "HTTP/1.1 ".to_owned();
    r.append(status);
    r.append("\r\nContent-Type: ");
    r.append(content_type);
    r.append("\r\nContent-Length: ");
    r.append(dec(len).as_str());
    r.append("\r\nConnection: close\r\nCache-Control: no-store\r\n\r\n");
    r
}

/// The entry that a pair of id and tag makes: none where the id is no number, there is no tag, or the
/// tag is that of an honest participant.
pub open spec fn entry(id: Seq<char>, tag: Option<Seq<char>>) -> Option<(usize, Malice)> {
    match (number(id, usize::MAX as int), tag) {
        (Some(i), Some(t)) => if Malice::of_tag(t) != Malice::Honest {
            Some((i as usize, Malice::of_tag(t)))
        } else {
            None
        },
        _ => None,
    }
}

/// The entries of the first `k` pairs; a later pair replaces an earlier one of the same id.
pub open spec fn entries(pairs: Seq<(Seq<char>, Option<Seq<char>>)>, k: int) -> Map<usize, Malice>
    decreases k,
{
    if k <= 0 {
        Map::empty()
    } else {
        let rest = entries(pairs, k - 1);
        match entry(pairs[k - 1].0, pairs[k - 1].1) {
            Some((i, m)) => rest.insert(i, m),
            None => rest,
        }
    }
}

/// With the first `k` listed ids, each of which corrupts both layers unless there is an entry for it.
pub open spec fn with_listed(
    named: Map<usize, Malice>,
    ids: Seq<u64>,
    k: int,
) -> Map<usize, Malice>
    decreases k,
{
    if k <= 0 {
        named
    } else {
        let rest = with_listed(named, ids, k - 1);
        let i = ids[k - 1] as usize;
        if rest.contains_key(i) {
            rest
        } else {
            rest.insert(i, Malice::Both)
        }
    }
}

/// The misbehaviour that a request asks for: pairs of id and tag, and a plain list of ids.
pub fn parse_malice(pairs: &Vec<(String, Option<String>)>, ids: &Vec<u64>) -> (r: BTreeMap<
    usize,
    Malice,
>)
    ensures
        r@ == with_listed(
            entries(member_views(pairs@), pairs.len() as int),
            ids@,
            ids.len() as int,
        ),
{
    let ghost named = member_views(pairs@);
    let mut r: BTreeMap<usize, Malice> = BTreeMap::new();
    for k in 0..pairs.len()
        invariant
            named == member_views(pairs@),
            r@ == entries(named, k as int),
    {
        let id = read_number(pairs[k].0.as_str(), usize::MAX as u64);
        if let Some(i) = id {
            if let Some(tag) = &pairs[k].1 {
                let m = Malice::from_tag(tag.as_str());
                if m.is_malicious() {
                    r.insert(i as usize, m);
                }
            }
        }
        assert(named[k as int] == (pairs[k as int].0@, text_view(pairs[k as int].1)));
        assert(r@ =~= entries(named, k + 1));
    }
    let ghost first = r@;
    for k in 0..ids.len()
        invariant
            r@ == with_listed(first, ids@, k as int),
    {
        let i = ids[k] as usize;
        if !r.contains_key(&i) {
            r.insert(i, Malice::Both);
        }
        assert(r@ =~= with_listed(first, ids@, k + 1));
    }
    r
}

/// The number of participants that a request asks for, by default four.
pub fn requested_size(n: Option<u64>) -> (r: usize)
    ensures
        r == match n {
            Some(v) => v as usize,
            None => 4,
        },
{
    match n {
        Some(v) => v as usize,
        None => 4,
    }
}

/// The numbers among the items of a list.
pub open spec fn numbers_of(items: Seq<Option<u64>>) -> Seq<u64>
    decreases items.len(),
{
    if items.len() == 0 {
        Seq::empty()
    } else {
        let rest = numbers_of(items.drop_last());
        match items.last() {
            Some(v) => rest.push(v),
            None => rest,
        }
    }
}

/// Drops the items of a list that are no number.
pub fn numbers_among(items: &Vec<Option<u64>>) -> (r: Vec<u64>)
    ensures
        r@ == numbers_of(items@),
{
    let mut r: Vec<u64> = Vec::new();
    assert(items@.take(0) =~= Seq::empty());
    for k in 0..items.len()
        invariant
            r@ == numbers_of(items@.take(k as int)),
    {
        assert(items@.take(k + 1).drop_last() =~= items@.take(k as int));
        if let Some(v) = items[k] {
            r.push(v);
        }
    }
    assert(items@.take(items.len() as int) =~= items@);
    r
}

/// The misbehaviour that members and items of a request ask for; where there are none, nothing.
pub open spec fn requested_malice(
    members: Option<Seq<(Seq<char>, Option<Seq<char>>)>>,
    items: Option<Seq<Option<u64>>>,
) -> Map<usize, Malice> {
    let named = match members {
        Some(m) => entries(m, m.len() as int),
        None => Map::empty(),
    };
    match items {
        Some(s) => with_listed(named, numbers_of(s), numbers_of(s).len() as int),
        None => named,
    }
}

/// What a request to configure a session asks for.
pub struct Configuration {
    pub n: usize,
    pub degree: Option<usize>,
    pub malice: BTreeMap<usize, Malice>,
}

impl Configuration {
    /// What the parts of a request ask for: the number of participants, by default four, the
    /// threshold, and the misbehaviour.
    pub open spec fn asked(
        self,
        n: Option<u64>,
        degree: Option<u64>,
        members: Option<Seq<(Seq<char>, Option<Seq<char>>)>>,
        items: Option<Seq<Option<u64>>>,
    ) -> bool {
        &&& self.n == match n {
            Some(v) => v as usize,
            None => 4,
        }
        &&& self.degree == match degree {
            Some(d) => Some(d as usize),
            None => None,
        }
        &&& self.malice@ == requested_malice(members, items)
    }
}

/// Reads the configuration out of the parts of a request.
pub fn configuration(
    n: Option<u64>,
    degree: Option<u64>,
    members: Option<Vec<(String, Option<String>)>>,
    items: Option<Vec<Option<u64>>>,
) -> (r: Configuration)
    ensures
        r.asked(
            n,
            degree,
            match members {
                Some(m) => Some(member_views(m@)),
                None => None,
            },
            match items {
                Some(s) => Some(s@),
                None => None,
            },
        ),
{
    let pairs: Vec<(String, Option<String>)> = match members {
        Some(m) => m,
        None => Vec::new(),
    };
    let ids: Vec<u64> = match &items {
        Some(s) => numbers_among(s),
        None => Vec::new(),
    };
    Configuration {
        n: requested_size(n),
        degree: match degree {
            Some(d) => Some(d as usize),
            None => None,
        },
        malice: parse_malice(&pairs, &ids),
    }
}

/// Reads the body of a request to configure a session: the numbers under `n` and `degree`, the tags
/// under `malice` and the ids under `malicious`. What is missing or of another kind counts for
/// nothing, and so does a body that is no JSON.
pub fn configure_request(body: &str) -> (r: Configuration)
    ensures
        r.asked(
            json_number(body@, "n"@),
            json_number(body@, "degree"@),
            json_members(body@, "malice"@),
            json_items(body@, "malicious"@),
        ),
{
    configuration(
        number_under(body, "n"),
        number_under(body, "degree"),
        members_under(body, "malice"),
        items_under(body, "malicious"),
    )
}

} // verus!
