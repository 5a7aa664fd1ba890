//! Search requests: the query string a request stands for, pagination, and
//! the fields read back from stored documents.
use vstd::prelude::*;

use crate::json::{get_member, Json, JsonValue};
use crate::text::{chars_of, chars_trim, owned, string_from_chars, trim};

verus! {

/// Query-string parameters of a search request.
pub struct SearchQueryParams {
    pub q: Option<String>,
    pub from: Option<usize>,
    pub size: Option<usize>,
}

/// The parts of a search request body that the query translation and
/// pagination read (aggregation requests travel beside it).
pub struct SearchRequestBody {
    pub query: Option<JsonValue>,
    pub from: Option<usize>,
    pub size: Option<usize>,
    pub sort: Option<JsonValue>,
}

/// The total number of hits of a search.
pub struct TotalHits {
    pub value: usize,
    pub relation: String,
}

// ---------------------------------------------------------------------------
// Query translation
// ---------------------------------------------------------------------------

/// The text of a value that is a string.
pub open spec fn str_of(v: Option<JsonValue>) -> Option<Seq<char>> {
    match v {
        Some(JsonValue::String(s)) => Some(s@),
        _ => None,
    }
}

/// `field:text`.
pub open spec fn field_term(k: Seq<char>, text: Seq<char>) -> Seq<char> {
    k + seq![':'] + text
}

/// `field:"text"`.
pub open spec fn field_phrase(k: Seq<char>, text: Seq<char>) -> Seq<char> {
    k + seq![':', '"'] + text + seq!['"']
}

/// The term a `match` entry stands for: `field:text` for a string, or for an
/// object whose `query` is a string.
pub open spec fn match_entry_term(k: Seq<char>, v: JsonValue) -> Option<Seq<char>> {
    match v {
        JsonValue::String(s) => Some(field_term(k, s@)),
        JsonValue::Object(_) => match str_of(get_member(v, "query"@)) {
            Some(q) => Some(field_term(k, q)),
            None => None,
        },
        _ => None,
    }
}

/// The term of the first entry of a `match` object that stands for one.
pub open spec fn first_match_term(entries: Seq<(String, JsonValue)>) -> Option<Seq<char>>
    decreases entries.len(),
{
    if entries.len() == 0 {
        None
    } else {
        match match_entry_term(entries[0].0@, entries[0].1) {
            Some(t) => Some(t),
            None => first_match_term(entries.drop_first()),
        }
    }
}

/// The terms of all entries of a `match` object that stand for one.
pub open spec fn match_terms(entries: Seq<(String, JsonValue)>) -> Seq<Seq<char>>
    decreases entries.len(),
{
    if entries.len() == 0 {
        Seq::empty()
    } else {
        let rest = match_terms(entries.drop_last());
        match match_entry_term(entries.last().0@, entries.last().1) {
            Some(t) => rest.push(t),
            None => rest,
        }
    }
}

/// The phrases of all string entries of a `match_phrase` object.
pub open spec fn phrase_terms(entries: Seq<(String, JsonValue)>) -> Seq<Seq<char>>
    decreases entries.len(),
{
    if entries.len() == 0 {
        Seq::empty()
    } else {
        let rest = phrase_terms(entries.drop_last());
        match entries.last().1 {
            JsonValue::String(s) => rest.push(field_phrase(entries.last().0@, s@)),
            _ => rest,
        }
    }
}

/// The terms one item of a `bool.must` list stands for: those of its
/// `match` object, or else those of its `match_phrase` object.
pub open spec fn item_terms(item: JsonValue) -> Seq<Seq<char>> {
    match get_member(item, "match"@) {
        Some(JsonValue::Object(obj)) => match_terms(obj@),
        _ => match get_member(item, "match_phrase"@) {
            Some(JsonValue::Object(obj)) => phrase_terms(obj@),
            _ => Seq::empty(),
        },
    }
}

/// The terms of all items of a `bool.must` list, in order.
pub open spec fn must_terms(items: Seq<JsonValue>) -> Seq<Seq<char>>
    decreases items.len(),
{
    if items.len() == 0 {
        Seq::empty()
    } else {
        must_terms(items.drop_last()) + item_terms(items.last())
    }
}

/// The parts joined with ` AND `.
pub open spec fn join_and(parts: Seq<Seq<char>>) -> Seq<char>
    decreases parts.len(),
{
    if parts.len() == 0 {
        Seq::empty()
    } else if parts.len() == 1 {
        parts[0]
    } else {
        join_and(parts.drop_last()) + " AND "@ + parts.last()
    }
}

/// The query string a query DSL object stands for, if one of the supported
/// forms applies: `query_string.query`, `match_all`, `match`, or
/// `bool.must` with `match` / `match_phrase` items.
pub open spec fn dsl_query_text(q: JsonValue) -> Option<Seq<char>> {
    match str_of(
        match get_member(q, "query_string"@) {
            Some(qs) => get_member(qs, "query"@),
            None => None,
        },
    ) {
        Some(s) => Some(s),
        None => if get_member(q, "match_all"@) is Some {
            Some(seq!['*'])
        } else {
            match (
                match get_member(q, "match"@) {
                    Some(JsonValue::Object(obj)) => first_match_term(obj@),
                    _ => None,
                }
            ) {
                Some(t) => Some(t),
                None => match get_member(q, "bool"@) {
                    Some(b) => match get_member(b, "must"@) {
                        Some(JsonValue::Array(items)) => if must_terms(items@).len() > 0 {
                            Some(join_and(must_terms(items@)))
                        } else {
                            None
                        },
                        _ => None,
                    },
                    None => None,
                },
            }
        },
    }
}

/// The query string of a search request: the `q` parameter when given,
/// otherwise the translation of the body's query DSL, otherwise `*`.
pub open spec fn query_text(params: SearchQueryParams, body: Option<SearchRequestBody>) -> Seq<
    char,
> {
    match params.q {
        Some(q) => q@,
        None => match body {
            Some(b) => match b.query {
                Some(q) => match dsl_query_text(q) {
                    Some(t) => t,
                    None => seq!['*'],
                },
                None => seq!['*'],
            },
            None => seq!['*'],
        },
    }
}

fn append_chars(out: &mut Vec<char>, s: &[char])
    ensures
        final(out)@ == old(out)@ + s@,
{
    let mut i: usize = 0;
    while i < s.len()
        invariant
            i <= s@.len(),
            out@ == old(out)@ + s@.take(i as int),
        decreases s@.len() - i,
    {
        out.push(s[i]);
        assert(old(out)@ + s@.take(i + 1) =~= (old(out)@ + s@.take(i as int)).push(s@[i as int]));
        i = i + 1;
    }
    assert(s@.take(s@.len() as int) =~= s@);
}

fn make_term(k: &String, text: &String) -> (r: Vec<char>)
    ensures
        r@ == field_term(k@, text@),
{
    let mut out = chars_of(k.as_str());
    out.push(':');
    let t = chars_of(text.as_str());
    append_chars(&mut out, t.as_slice());
    assert(out@ =~= field_term(k@, text@));
    out
}

fn make_phrase(k: &String, text: &String) -> (r: Vec<char>)
    ensures
        r@ == field_phrase(k@, text@),
{
    let mut out = chars_of(k.as_str());
    out.push(':');
    out.push('"');
    let t = chars_of(text.as_str());
    append_chars(&mut out, t.as_slice());
    out.push('"');
    assert(out@ =~= field_phrase(k@, text@));
    out
}

fn string_member<'a>(v: &'a JsonValue, key: &str) -> (r: Option<&'a String>)
    ensures
        match r {
            Some(s) => str_of(get_member(*v, key@)) == Some(s@),
            None => str_of(get_member(*v, key@)) is None,
        },
{
    match v.get(key) {
        Some(JsonValue::String(s)) => Some(s),
        _ => None,
    }
}

fn entry_term(k: &String, v: &JsonValue) -> (r: Option<Vec<char>>)
    ensures
        match r {
            Some(t) => match_entry_term(k@, *v) == Some(t@),
            None => match_entry_term(k@, *v) is None,
        },
{
    match v {
        JsonValue::String(s) => Some(make_term(k, s)),
        JsonValue::Object(_) => match string_member(v, "query") {
            Some(q) => Some(make_term(k, q)),
            None => None,
        },
        _ => None,
    }
}

fn first_term(entries: &Vec<(String, JsonValue)>) -> (r: Option<Vec<char>>)
    ensures
        match r {
            Some(t) => first_match_term(entries@) == Some(t@),
            None => first_match_term(entries@) is None,
        },
{
    let mut i: usize = 0;
    assert(entries@.subrange(0, entries@.len() as int) =~= entries@);
    while i < entries.len()
        invariant
            i <= entries@.len(),
            first_match_term(entries@) == first_match_term(entries@.subrange(
                i as int,
                entries@.len() as int,
            )),
        decreases entries@.len() - i,
    {
        let ghost rest = entries@.subrange(i as int, entries@.len() as int);
        assert(rest[0] == entries@[i as int]);
        assert(rest.drop_first() =~= entries@.subrange(i + 1, entries@.len() as int));
        match entry_term(&entries[i].0, &entries[i].1) {
            Some(t) => {
                return Some(t);
            },
            None => {},
        }
        i = i + 1;
    }
    None
}

fn collect_match_terms(entries: &Vec<(String, JsonValue)>, parts: &mut Vec<Vec<char>>)
    ensures
        final(parts)@.len() == old(parts)@.len() + match_terms(entries@).len(),
        forall|j: int| 0 <= j < old(parts)@.len() ==> (#[trigger] final(parts)@[j])@ == old(parts)@[j]@,
        forall|j: int|
            0 <= j < match_terms(entries@).len() ==> (#[trigger] final(parts)@[old(parts)@.len() + j])@
                == match_terms(entries@)[j],
{
    let ghost start = parts@;
    let mut i: usize = 0;
    while i < entries.len()
        invariant
            i <= entries@.len(),
            parts@.len() == start.len() + match_terms(entries@.take(i as int)).len(),
            forall|j: int| 0 <= j < start.len() ==> (#[trigger] parts@[j])@ == start[j]@,
            forall|j: int|
                0 <= j < match_terms(entries@.take(i as int)).len() ==> (#[trigger] parts@[start.len()
                    + j])@ == match_terms(entries@.take(i as int))[j],
        decreases entries@.len() - i,
    {
        assert(entries@.take(i + 1).drop_last() =~= entries@.take(i as int));
        assert(entries@.take(i + 1).last() == entries@[i as int]);
        match entry_term(&entries[i].0, &entries[i].1) {
            Some(t) => {
                parts.push(t);
            },
            None => {},
        }
        i = i + 1;
    }
    assert(entries@.take(entries@.len() as int) =~= entries@);
}

fn collect_phrase_terms(entries: &Vec<(String, JsonValue)>, parts: &mut Vec<Vec<char>>)
    ensures
        final(parts)@.len() == old(parts)@.len() + phrase_terms(entries@).len(),
        forall|j: int| 0 <= j < old(parts)@.len() ==> (#[trigger] final(parts)@[j])@ == old(parts)@[j]@,
        forall|j: int|
            0 <= j < phrase_terms(entries@).len() ==> (#[trigger] final(parts)@[old(parts)@.len()
                + j])@ == phrase_terms(entries@)[j],
{
    let ghost start = parts@;
    let mut i: usize = 0;
    while i < entries.len()
        invariant
            i <= entries@.len(),
            parts@.len() == start.len() + phrase_terms(entries@.take(i as int)).len(),
            forall|j: int| 0 <= j < start.len() ==> (#[trigger] parts@[j])@ == start[j]@,
            forall|j: int|
                0 <= j < phrase_terms(entries@.take(i as int)).len() ==> (#[trigger] parts@[start.len()
                    + j])@ == phrase_terms(entries@.take(i as int))[j],
        decreases entries@.len() - i,
    {
        assert(entries@.take(i + 1).drop_last() =~= entries@.take(i as int));
        assert(entries@.take(i + 1).last() == entries@[i as int]);
        match &entries[i].1 {
            JsonValue::String(s) => {
                parts.push(make_phrase(&entries[i].0, s));
            },
            _ => {},
        }
        i = i + 1;
    }
    assert(entries@.take(entries@.len() as int) =~= entries@);
}

fn collect_item_terms(item: &JsonValue, parts: &mut Vec<Vec<char>>)
    ensures
        final(parts)@.len() == old(parts)@.len() + item_terms(*item).len(),
        forall|j: int| 0 <= j < old(parts)@.len() ==> (#[trigger] final(parts)@[j])@ == old(parts)@[j]@,
        forall|j: int|
            0 <= j < item_terms(*item).len() ==> (#[trigger] final(parts)@[old(parts)@.len() + j])@
                == item_terms(*item)[j],
{
    match item.get("match") {
        Some(JsonValue::Object(obj)) => collect_match_terms(obj, parts),
        _ => match item.get("match_phrase") {
            Some(JsonValue::Object(obj)) => collect_phrase_terms(obj, parts),
            _ => {},
        },
    }
}

fn join_parts(parts: &Vec<Vec<char>>) -> (r: Vec<char>)
    requires
        parts@.len() > 0,
    ensures
        r@ == join_and(Seq::new(parts@.len(), |j: int| parts@[j]@)),
{
    let ghost ps = Seq::new(parts@.len(), |j: int| parts@[j]@);
    let mut out: Vec<char> = Vec::new();
    append_chars(&mut out, parts[0].as_slice());
    let sep = chars_of(" AND ");
    let mut i: usize = 1;
    assert(ps.take(1).len() == 1);
    assert(out@ =~= join_and(ps.take(1)));
    while i < parts.len()
        invariant
            1 <= i <= parts@.len(),
            ps == Seq::new(parts@.len(), |j: int| parts@[j]@),
            sep@ == " AND "@,
            out@ == join_and(ps.take(i as int)),
        decreases parts@.len() - i,
    {
        append_chars(&mut out, sep.as_slice());
        append_chars(&mut out, parts[i].as_slice());
        assert(ps.take(i + 1).drop_last() =~= ps.take(i as int));
        assert(ps.take(i + 1).last() == ps[i as int]);
        i = i + 1;
    }
    assert(ps.take(parts@.len() as int) =~= ps);
    out
}

/// The query string of a `bool.must` query, when it has terms.
fn bool_text(q: &JsonValue) -> (r: Option<Vec<char>>)
    ensures
        match r {
            Some(t) => match get_member(*q, "bool"@) {
                Some(b) => match get_member(b, "must"@) {
                    Some(JsonValue::Array(items)) => must_terms(items@).len() > 0 && t@ == join_and(
                        must_terms(items@),
                    ),
                    _ => false,
                },
                None => false,
            },
            None => match get_member(*q, "bool"@) {
                Some(b) => match get_member(b, "must"@) {
                    Some(JsonValue::Array(items)) => must_terms(items@).len() == 0,
                    _ => true,
                },
                None => true,
            },
        },
{
    match q.get("bool") {
        Some(b) => match b.get("must") {
            Some(JsonValue::Array(items)) => {
                let mut parts: Vec<Vec<char>> = Vec::new();
                let mut i: usize = 0;
                while i < items.len()
                    invariant
                        i <= items@.len(),
                        parts@.len() == must_terms(items@.take(i as int)).len(),
                        forall|j: int|
                            0 <= j < parts@.len() ==> (#[trigger] parts@[j])@ == must_terms(
                                items@.take(i as int),
                            )[j],
                    decreases items@.len() - i,
                {
                    let ghost before = parts@;
                    collect_item_terms(&items[i], &mut parts);
                    proof {
                        assert(items@.take(i + 1).drop_last() =~= items@.take(i as int));
                        assert(items@.take(i + 1).last() == items@[i as int]);
                        let m0 = must_terms(items@.take(i as int));
                        let it = item_terms(items@[i as int]);
                        assert(must_terms(items@.take(i + 1)) == m0 + it);
                        assert forall|j: int| 0 <= j < parts@.len() implies (#[trigger] parts@[j])@
                            == (m0 + it)[j] by {
                            if j < before.len() {
                                assert(parts@[j]@ == before[j]@);
                            } else {
                                assert(parts@[before.len() + (j - before.len())]@ == it[j
                                    - before.len()]);
                            }
                        }
                    }
                    i = i + 1;
                }
                assert(items@.take(items@.len() as int) =~= items@);
                if parts.len() > 0 {
                    let out = join_parts(&parts);
                    assert(Seq::new(parts@.len(), |j: int| parts@[j]@) =~= must_terms(items@));
                    Some(out)
                } else {
                    None
                }
            },
            _ => None,
        },
        None => None,
    }
}

/// The query string of a DSL object, when a supported form applies.
fn dsl_text(q: &JsonValue) -> (r: Option<Vec<char>>)
    ensures
        match r {
            Some(t) => dsl_query_text(*q) == Some(t@),
            None => dsl_query_text(*q) is None,
        },
{
    match q.get("query_string") {
        Some(qs) => match string_member(qs, "query") {
            Some(s) => {
                return Some(chars_of(s.as_str()));
            },
            None => {},
        },
        None => {},
    }
    if q.get("match_all").is_some() {
        proof {
            reveal_strlit("*");
        }
        return Some(chars_of("*"));
    }
    match q.get("match") {
        Some(JsonValue::Object(obj)) => match first_term(obj) {
            Some(t) => {
                return Some(t);
            },
            None => {},
        },
        _ => {},
    }
    bool_text(q)
}

/// Translates an OpenSearch-style query DSL subset into a query string:
/// the `q` parameter wins; otherwise the body's query is read as
/// `query_string`, `match_all`, `match` or `bool.must`; otherwise `*`.
pub fn extract_query_string(params: &SearchQueryParams, body: Option<&SearchRequestBody>) -> (r:
    String)
    ensures
        r@ == query_text(
            *params,
            match body {
                Some(b) => Some(*b),
                None => None,
            },
        ),
{
    match &params.q {
        Some(q) => {
            return q.clone();
        },
        None => {},
    }
    proof {
        reveal_strlit("*");
    }
    match body {
        Some(b) => match &b.query {
            Some(q) => match dsl_text(q) {
                Some(t) => string_from_chars(t.as_slice()),
                None => string_from_chars(chars_of("*").as_slice()),
            },
            None => string_from_chars(chars_of("*").as_slice()),
        },
        None => string_from_chars(chars_of("*").as_slice()),
    }
}

// ---------------------------------------------------------------------------
// Pagination
// ---------------------------------------------------------------------------

/// The first hit and the number of hits a request asks for: the query
/// parameters win over the body; the defaults are 0 and 10.
pub fn resolve_pagination(params: &SearchQueryParams, body: Option<&SearchRequestBody>) -> (r: (
    usize,
    usize,
))
    ensures
        r.0 == match params.from {
            Some(f) => f,
            None => match body {
                Some(b) => match b.from {
                    Some(f) => f,
                    None => 0,
                },
                None => 0,
            },
        },
        r.1 == match params.size {
            Some(s) => s,
            None => match body {
                Some(b) => match b.size {
                    Some(s) => s,
                    None => 10,
                },
                None => 10,
            },
        },
{
    let from = match params.from {
        Some(f) => f,
        None => match body {
            Some(b) => match b.from {
                Some(f) => f,
                None => 0,
            },
            None => 0,
        },
    };
    let size = match params.size {
        Some(s) => s,
        None => match body {
            Some(b) => match b.size {
                Some(s) => s,
                None => 10,
            },
            None => 10,
        },
    };
    (from, size)
}

/// How many top hits each searcher collects: enough to serve the page
/// (`from + size`), and at least one so that counting still happens.
pub fn search_limit(from: usize, size: usize) -> (r: usize)
    requires
        size == 0 || from + size <= usize::MAX,
    ensures
        r == if size == 0 {
            1
        } else {
            from + size
        },
{
    if size == 0 {
        1
    } else {
        from + size
    }
}

/// The hits of the requested page: `size` hits starting at position `from`
/// of the ranked hits (fewer at the end, none past it).
pub fn page_window<T>(hits: Vec<T>, from: usize, size: usize) -> (r: Vec<T>)
    ensures
        r@ == if from >= hits@.len() {
            Seq::<T>::empty()
        } else if size >= hits@.len() - from {
            hits@.subrange(from as int, hits@.len() as int)
        } else {
            hits@.subrange(from as int, from + size)
        },
{
    let ghost all = hits@;
    let n = hits.len();
    let mut out: Vec<T> = Vec::new();
    let mut i: usize = 0;
    for h in it: hits.into_iter()
        invariant
            n == all.len(),
            it.seq() == all,
            i == it.index(),
            i <= all.len(),
            out@ == if i <= from {
                Seq::<T>::empty()
            } else if i - from <= size {
                all.subrange(from as int, i as int)
            } else {
                all.subrange(from as int, from + size)
            },
    {
        if i >= from && i - from < size {
            proof {
                assert(all.subrange(from as int, i as int).push(all[i as int]) =~= all.subrange(
                    from as int,
                    i + 1,
                ));
            }
            out.push(h);
        }
        assert(i < n);
        i = i + 1;
    }
    out
}

// ---------------------------------------------------------------------------
// Reading stored documents
// ---------------------------------------------------------------------------

/// `"unknown"`: the index name and id shown for a hit that carries none.
pub open spec fn unknown_name() -> Seq<char> {
    "unknown"@
}

/// The original document stored in a hit: the first element when `_source`
/// holds an array (nothing for an empty one), otherwise `_source` itself,
/// otherwise null.
pub open spec fn hit_source(doc: JsonValue) -> Json {
    match get_member(doc, "_source"@) {
        Some(JsonValue::Array(items)) => if items@.len() > 0 {
            items@[0]@
        } else {
            Json::Null
        },
        Some(v) => v@,
        None => Json::Null,
    }
}

/// The index name stored in a hit: the first element of `_index` when it is
/// a non-empty array starting with a string, otherwise `"unknown"`.
pub open spec fn hit_index(doc: JsonValue) -> Seq<char> {
    match get_member(doc, "_index"@) {
        Some(JsonValue::Array(items)) => if items@.len() > 0 && items@[0] is String {
            items@[0]->String_0@
        } else {
            unknown_name()
        },
        _ => unknown_name(),
    }
}

/// Reads the original document and the index name out of a stored
/// document's JSON form.
pub fn extract_hit_source(doc: &JsonValue) -> (r: (JsonValue, String))
    ensures
        r.0@ == hit_source(*doc),
        r.1@ == hit_index(*doc),
{
    let source = match doc.get("_source") {
        Some(JsonValue::Array(items)) => if items.len() > 0 {
            items[0].duplicate()
        } else {
            JsonValue::Null
        },
        Some(v) => v.duplicate(),
        None => JsonValue::Null,
    };
    let index_name = match doc.get("_index") {
        Some(JsonValue::Array(items)) => if items.len() > 0 {
            match &items[0] {
                JsonValue::String(s) => s.clone(),
                _ => owned("unknown"),
            }
        } else {
            owned("unknown")
        },
        _ => owned("unknown"),
    };
    (source, index_name)
}

impl TotalHits {
    /// An exact hit count.
    pub fn exact(value: usize) -> (r: Self)
        ensures
            r.value == value,
            r.relation@ == "eq"@,
    {
        TotalHits { value, relation: owned("eq") }
    }
}

/// Whether a query string matches every document: it is blank or, once
/// trimmed, `*`.
pub open spec fn matches_all_spec(q: Seq<char>) -> bool {
    trim(q).len() == 0 || trim(q) == seq!['*']
}

/// Whether the query string `q` matches every document (it is blank or
/// `*`); any other query string is handed to the query parser.
pub fn matches_all(q: &str) -> (r: bool)
    ensures
        r == matches_all_spec(q@),
{
    let t = chars_trim(chars_of(q).as_slice());
    let star = t.len() == 1 && t[0] == '*';
    proof {
        if star {
            assert(t@ =~= seq!['*']);
        }
    }
    t.len() == 0 || star
}

// ---------------------------------------------------------------------------
// Laws of the query translation
// ---------------------------------------------------------------------------

/// The total length of the parts.
pub open spec fn total_len(parts: Seq<Seq<char>>) -> int
    decreases parts.len(),
{
    if parts.len() == 0 {
        0
    } else {
        total_len(parts.drop_last()) + parts.last().len()
    }
}

/// Where the `i`-th part starts in the joined text: after the parts before
/// it and one five-character separator per earlier part.
pub open spec fn part_start(parts: Seq<Seq<char>>, i: int) -> int {
    total_len(parts.take(i)) + 5 * i
}

/// `" AND "`, character by character.
pub open spec fn and_separator() -> Seq<char> {
    seq![' ', 'A', 'N', 'D', ' ']
}

proof fn lemma_total_len_nonneg(parts: Seq<Seq<char>>)
    ensures
        total_len(parts) >= 0,
    decreases parts.len(),
{
    if parts.len() > 0 {
        lemma_total_len_nonneg(parts.drop_last());
    }
}

proof fn lemma_join_len(parts: Seq<Seq<char>>)
    requires
        parts.len() > 0,
    ensures
        join_and(parts).len() == total_len(parts) + 5 * (parts.len() - 1),
    decreases parts.len(),
{
    reveal_strlit(" AND ");
    if parts.len() == 1 {
        assert(total_len(parts.drop_last()) == 0);
    } else {
        lemma_join_len(parts.drop_last());
    }
}

/// The joined text of two or more parts: the join of all but the last,
/// ` AND `, and the last.
proof fn lemma_join_split(parts: Seq<Seq<char>>)
    requires
        parts.len() > 1,
    ensures
        join_and(parts) == join_and(parts.drop_last()) + and_separator() + parts.last(),
{
    reveal_strlit(" AND ");
    assert(" AND "@ =~= and_separator());
}

proof fn lemma_part_at(parts: Seq<Seq<char>>, i: int)
    requires
        0 <= i < parts.len(),
    ensures
        part_start(parts, i) + parts[i].len() <= join_and(parts).len(),
        join_and(parts).subrange(part_start(parts, i), part_start(parts, i) + parts[i].len())
            == parts[i],
    decreases parts.len(),
{
    let n = parts.len() as int;
    lemma_join_len(parts);
    lemma_part_end_bound(parts, i);
    if n == 1 {
        assert(parts.take(0) =~= Seq::<Seq<char>>::empty());
        assert(total_len(parts.take(0)) == 0);
        assert(join_and(parts).subrange(0, parts[0].len() as int) =~= parts[0]);
    } else {
        let init = parts.drop_last();
        lemma_join_split(parts);
        lemma_join_len(init);
        if i < n - 1 {
            lemma_part_at(init, i);
            assert(parts.take(i) =~= init.take(i));
            lemma_total_len_nonneg(init.take(i));
            assert(part_start(parts, i) == part_start(init, i));
            assert(join_and(parts).subrange(part_start(parts, i), part_start(parts, i) + parts[i].len())
                =~= join_and(init).subrange(part_start(init, i), part_start(init, i) + init[i].len()));
        } else {
            assert(parts.take(n - 1) =~= init);
            lemma_total_len_nonneg(init);
            assert(join_and(parts).subrange(part_start(parts, i), part_start(parts, i) + parts[i].len())
                =~= parts.last());
        }
    }
}

proof fn lemma_separator_at(parts: Seq<Seq<char>>, i: int)
    requires
        1 <= i < parts.len(),
    ensures
        join_and(parts).subrange(part_start(parts, i) - 5, part_start(parts, i)) == and_separator(),
    decreases parts.len(),
{
    let n = parts.len() as int;
    let init = parts.drop_last();
    lemma_join_split(parts);
    lemma_join_len(init);
    if i < n - 1 {
        lemma_separator_at(init, i);
        lemma_part_at(init, i);
        assert(parts.take(i) =~= init.take(i));
        lemma_total_len_nonneg(init.take(i));
        assert(part_start(parts, i) == part_start(init, i));
        assert(join_and(parts).subrange(part_start(parts, i) - 5, part_start(parts, i)) =~= join_and(
            init,
        ).subrange(part_start(init, i) - 5, part_start(init, i)));
    } else {
        assert(parts.take(n - 1) =~= init);
        lemma_total_len_nonneg(init);
        assert(join_and(parts).subrange(part_start(parts, i) - 5, part_start(parts, i))
            =~= and_separator());
    }
}

/// Joining with ` AND ` keeps every part, in order, each separated from the
/// one before it by ` AND `: the joined text is exactly as long as the parts
/// together plus five characters per separator, part `i` stands at
/// [`part_start`], and ` AND ` stands right before every part but the
/// first.
pub proof fn law_join_and_keeps_every_part(parts: Seq<Seq<char>>)
    requires
        parts.len() > 0,
    ensures
        join_and(parts).len() == total_len(parts) + 5 * (parts.len() - 1),
        forall|i: int|
            0 <= i < parts.len() ==> join_and(parts).subrange(
                part_start(parts, i),
                part_start(parts, i) + parts[i].len(),
            ) == #[trigger] parts[i],
        forall|i: int|
            1 <= i < parts.len() ==> join_and(parts).subrange(
                #[trigger] part_start(parts, i) - 5,
                part_start(parts, i),
            ) == and_separator(),
{
    lemma_join_len(parts);
    assert forall|i: int| 0 <= i < parts.len() implies join_and(parts).subrange(
        part_start(parts, i),
        part_start(parts, i) + parts[i].len(),
    ) == #[trigger] parts[i] by {
        lemma_part_at(parts, i);
    }
    assert forall|i: int| 1 <= i < parts.len() implies join_and(parts).subrange(
        #[trigger] part_start(parts, i) - 5,
        part_start(parts, i),
    ) == and_separator() by {
        lemma_separator_at(parts, i);
    }
}

proof fn lemma_part_end_bound(parts: Seq<Seq<char>>, i: int)
    requires
        0 <= i < parts.len(),
    ensures
        total_len(parts.take(i)) + parts[i].len() + 5 * i <= total_len(parts) + 5 * (parts.len() - 1),
    decreases parts.len(),
{
    if i < parts.len() - 1 {
        assert(parts.drop_last().take(i) =~= parts.take(i));
        lemma_part_end_bound(parts.drop_last(), i);
    } else {
        assert(parts.take(i) =~= parts.drop_last());
    }
}

/// How many entries of a `match` object stand for a term.
pub open spec fn match_term_count(entries: Seq<(String, JsonValue)>) -> int
    decreases entries.len(),
{
    if entries.len() == 0 {
        0
    } else {
        match_term_count(entries.drop_last()) + if match_entry_term(
            entries.last().0@,
            entries.last().1,
        ) is Some {
            1int
        } else {
            0int
        }
    }
}

proof fn lemma_match_count_step(entries: Seq<(String, JsonValue)>, i: int)
    requires
        0 <= i < entries.len(),
    ensures
        match_term_count(entries.take(i + 1)) == match_term_count(entries.take(i)) + if match_entry_term(
            entries[i].0@,
            entries[i].1,
        ) is Some {
            1int
        } else {
            0int
        },
{
    assert(entries.take(i + 1).drop_last() =~= entries.take(i));
}

proof fn lemma_match_count_prefix(entries: Seq<(String, JsonValue)>, i: int)
    requires
        0 <= i <= entries.len(),
    ensures
        0 <= match_term_count(entries.take(i)) <= match_term_count(entries),
    decreases entries.len(),
{
    if i < entries.len() {
        assert(entries.drop_last().take(i) =~= entries.take(i));
        lemma_match_count_prefix(entries.drop_last(), i);
    } else {
        assert(entries.take(i) =~= entries);
        lemma_match_count_nonneg(entries);
    }
}

proof fn lemma_match_count_nonneg(entries: Seq<(String, JsonValue)>)
    ensures
        match_term_count(entries) >= 0,
    decreases entries.len(),
{
    if entries.len() > 0 {
        lemma_match_count_nonneg(entries.drop_last());
    }
}

/// Every entry of a `match` object that stands for a term contributes it,
/// in entry order: there are as many terms as such entries, and the term of
/// entry `i` comes after the terms of the entries before it.
pub proof fn law_match_terms_complete(entries: Seq<(String, JsonValue)>)
    ensures
        match_terms(entries).len() == match_term_count(entries),
        forall|i: int|
            0 <= i < entries.len() && #[trigger] match_entry_term(entries[i].0@, entries[i].1) is Some
                ==> match_terms(entries)[match_term_count(entries.take(i))] == match_entry_term(
                entries[i].0@,
                entries[i].1,
            ).unwrap(),
    decreases entries.len(),
{
    if entries.len() > 0 {
        let init = entries.drop_last();
        law_match_terms_complete(init);
        let n = entries.len() - 1;
        assert forall|i: int|
            0 <= i < entries.len() && #[trigger] match_entry_term(entries[i].0@, entries[i].1) is Some
                implies match_terms(entries)[match_term_count(entries.take(i))] == match_entry_term(
            entries[i].0@,
            entries[i].1,
        ).unwrap() by {
            if i < n {
                assert(entries.take(i) =~= init.take(i));
                assert(init[i] == entries[i]);
                lemma_match_count_step(init, i);
                lemma_match_count_prefix(init, i + 1);
                lemma_match_count_nonneg(init.take(i));
            } else {
                assert(entries.take(i) =~= init);
            }
        }
    }
}

/// How many entries of a `match_phrase` object hold a string.
pub open spec fn phrase_count(entries: Seq<(String, JsonValue)>) -> int
    decreases entries.len(),
{
    if entries.len() == 0 {
        0
    } else {
        phrase_count(entries.drop_last()) + if entries.last().1 is String {
            1int
        } else {
            0int
        }
    }
}

proof fn lemma_phrase_count_nonneg(entries: Seq<(String, JsonValue)>)
    ensures
        phrase_count(entries) >= 0,
    decreases entries.len(),
{
    if entries.len() > 0 {
        lemma_phrase_count_nonneg(entries.drop_last());
    }
}

proof fn lemma_phrase_count_prefix(entries: Seq<(String, JsonValue)>, i: int)
    requires
        0 <= i <= entries.len(),
    ensures
        phrase_count(entries.take(i)) <= phrase_count(entries),
    decreases entries.len(),
{
    if i < entries.len() {
        assert(entries.drop_last().take(i) =~= entries.take(i));
        lemma_phrase_count_prefix(entries.drop_last(), i);
    } else {
        assert(entries.take(i) =~= entries);
    }
}

/// Every string entry of a `match_phrase` object contributes its phrase
/// `field:"text"`, in entry order.
pub proof fn law_phrase_terms_complete(entries: Seq<(String, JsonValue)>)
    ensures
        phrase_terms(entries).len() == phrase_count(entries),
        forall|i: int|
            0 <= i < entries.len() && (#[trigger] entries[i]).1 is String ==> phrase_terms(entries)[phrase_count(
                entries.take(i),
            )] == field_phrase(entries[i].0@, entries[i].1->String_0@),
    decreases entries.len(),
{
    if entries.len() > 0 {
        let init = entries.drop_last();
        law_phrase_terms_complete(init);
        let n = entries.len() - 1;
        assert forall|i: int|
            0 <= i < entries.len() && (#[trigger] entries[i]).1 is String implies phrase_terms(entries)[phrase_count(
            entries.take(i),
        )] == field_phrase(entries[i].0@, entries[i].1->String_0@) by {
            if i < n {
                assert(entries.take(i) =~= init.take(i));
                assert(init[i] == entries[i]);
                assert(init.take(i + 1).drop_last() =~= init.take(i));
                lemma_phrase_count_prefix(init, i + 1);
                lemma_phrase_count_nonneg(init.take(i));
            } else {
                assert(entries.take(i) =~= init);
            }
        }
    }
}

/// How many terms the first items of a `bool.must` list stand for.
pub open spec fn terms_before(items: Seq<JsonValue>, i: int) -> int
    decreases i,
{
    if i <= 0 {
        0
    } else {
        terms_before(items, i - 1) + item_terms(items[i - 1]).len()
    }
}

proof fn lemma_terms_before_mono(items: Seq<JsonValue>, i: int, j: int)
    requires
        0 <= i <= j,
    ensures
        0 <= terms_before(items, i) <= terms_before(items, j),
    decreases j,
{
    if j > i {
        lemma_terms_before_mono(items, i, j - 1);
    } else if i > 0 {
        lemma_terms_before_mono(items, 0, i - 1);
    }
}

/// Every item of a `bool.must` list contributes all of its terms, in item
/// order: the list stands for as many terms as its items together, and the
/// `k`-th term of item `i` comes right after the terms of the items before
/// it.
#[verifier::rlimit(40)]
pub proof fn law_must_terms_complete(items: Seq<JsonValue>)
    ensures
        must_terms(items).len() == terms_before(items, items.len() as int),
        forall|i: int, k: int|
            0 <= i < items.len() && 0 <= k < item_terms(items[i]).len() ==> must_terms(items)[terms_before(
                items,
                i,
            ) + k] == #[trigger] item_terms(items[i])[k],
    decreases items.len(),
{
    if items.len() > 0 {
        let init = items.drop_last();
        let n = items.len() - 1;
        law_must_terms_complete(init);
        let last = item_terms(items[n]);
        assert(must_terms(items) == must_terms(init) + last);
        assert forall|m: int| 0 <= m <= n implies #[trigger] terms_before(items, m) == terms_before(init, m) by {
            lemma_terms_before_same(items, init, m);
        }
        assert forall|i: int, k: int|
            0 <= i < items.len() && 0 <= k < item_terms(items[i]).len() implies must_terms(items)[terms_before(
            items,
            i,
        ) + k] == #[trigger] item_terms(items[i])[k] by {
            lemma_terms_before_mono(init, 0, i);
            if i < n {
                assert(init[i] == items[i]);
                assert(terms_before(items, i) == terms_before(init, i));
                lemma_terms_before_mono(init, i + 1, n);
                assert(terms_before(init, i + 1) == terms_before(init, i) + item_terms(init[i]).len());
            } else {
                assert(terms_before(items, i) == terms_before(init, n));
            }
        }
        assert(terms_before(items, n) == terms_before(init, n));
        assert(terms_before(items, n + 1) == terms_before(items, n) + item_terms(items[n]).len());
    }
}

proof fn lemma_terms_before_same(a: Seq<JsonValue>, b: Seq<JsonValue>, m: int)
    requires
        0 <= m <= b.len(),
        b.len() <= a.len(),
        forall|j: int| 0 <= j < b.len() ==> a[j] == b[j],
    ensures
        terms_before(a, m) == terms_before(b, m),
    decreases m,
{
    if m > 0 {
        lemma_terms_before_same(a, b, m - 1);
    }
}

/// Without a `q` parameter, a body whose query is a `bool.must` list (and
/// none of the forms tried before it) with at least one term stands for all
/// of the list's terms joined with ` AND `.
pub proof fn law_bool_must_query(params: SearchQueryParams, body: SearchRequestBody, items: Vec<JsonValue>)
    requires
        params.q is None,
        body.query matches Some(q) && get_member(q, "query_string"@) is None && get_member(
            q,
            "match_all"@,
        ) is None && get_member(q, "match"@) is None && (get_member(q, "bool"@) matches Some(b)
            && get_member(b, "must"@) == Some(JsonValue::Array(items))),
        must_terms(items@).len() > 0,
    ensures
        query_text(params, Some(body)) == join_and(must_terms(items@)),
{
}

/// A top-level `match` object stands for the term of its first entry that
/// stands for one, and for none when no entry does.
pub proof fn law_first_match_term(entries: Seq<(String, JsonValue)>)
    ensures
        first_match_term(entries) is None <==> forall|i: int|
            0 <= i < entries.len() ==> (#[trigger] match_entry_term(entries[i].0@, entries[i].1)) is None,
        forall|i: int|
            0 <= i < entries.len() && (#[trigger] match_entry_term(entries[i].0@, entries[i].1)) is Some
                && (forall|j: int| 0 <= j < i ==> (#[trigger] match_entry_term(entries[j].0@, entries[j].1)) is None)
                ==> first_match_term(entries) == match_entry_term(entries[i].0@, entries[i].1),
    decreases entries.len(),
{
    if entries.len() > 0 {
        let rest = entries.drop_first();
        law_first_match_term(rest);
        assert forall|i: int| 0 < i < entries.len() implies entries[i] == rest[i - 1] by {}
        if first_match_term(entries) is None {
            assert forall|i: int| 0 <= i < entries.len() implies (#[trigger] match_entry_term(
                entries[i].0@,
                entries[i].1,
            )) is None by {
                if i > 0 {
                    assert(entries[i] == rest[i - 1]);
                }
            }
        } else if match_entry_term(entries[0].0@, entries[0].1) is None {
            let k = choose|k: int| 0 <= k < rest.len() && (#[trigger] match_entry_term(rest[k].0@, rest[k].1)) is Some;
            assert(entries[k + 1] == rest[k]);
        }
        assert forall|i: int|
            0 <= i < entries.len() && (#[trigger] match_entry_term(entries[i].0@, entries[i].1)) is Some
                && (forall|j: int| 0 <= j < i ==> (#[trigger] match_entry_term(entries[j].0@, entries[j].1)) is None)
                implies first_match_term(entries) == match_entry_term(entries[i].0@, entries[i].1) by {
            if i > 0 {
                assert(match_entry_term(entries[0].0@, entries[0].1) is None);
                assert(entries[i] == rest[i - 1]);
                assert forall|j: int| 0 <= j < i - 1 implies (#[trigger] match_entry_term(rest[j].0@, rest[j].1)) is None by {
                    assert(entries[j + 1] == rest[j]);
                }
            }
        }
    }
}

} // verus!
