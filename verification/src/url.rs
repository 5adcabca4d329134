//! Routes: the path and query string of a request.

use crate::join::{join_strings, joined, texts};
use crate::percent::{
    encode_query_value, is_value_char, lemma_value_encoded_is_clean, value_encoded,
};
use core::fmt::Display;
use vstd::prelude::*;
use vstd::std_specs::cmp::PartialEqSpecImpl;
use vstd::string::{
    is_ascii, is_ascii_spec_bytes, to_string_from_display_ensures, StringSliceAdditionalSpecFns,
};
use vstd::utf8::encode_utf8;

verus! {

/// A route as mathematics sees it: the path segments and the query pairs,
/// each in the order in which they were added.
pub struct RouteView {
    pub path: Seq<Seq<char>>,
    pub query: Seq<(Seq<char>, Seq<char>)>,
}

/// One query pair on the wire: the name as it is, `=`, and the value
/// percent-encoded from its UTF-8 bytes.
pub open spec fn pair_text(attribute: Seq<char>, value: Seq<char>) -> Seq<char> {
    attribute + seq!['='] + value_encoded(encode_utf8(value))
}

/// The wire form of every query pair, in order.
pub open spec fn pair_texts(query: Seq<(Seq<char>, Seq<char>)>) -> Seq<Seq<char>> {
    Seq::new(query.len(), |i: int| pair_text(query[i].0, query[i].1))
}

impl RouteView {
    /// The route with no segment and no query pair.
    pub open spec fn empty() -> RouteView {
        RouteView { path: Seq::empty(), query: Seq::empty() }
    }

    /// This route with one more segment at the end of its path.
    pub open spec fn add_segment(self, segment: Seq<char>) -> RouteView {
        RouteView { path: self.path.push(segment), query: self.query }
    }

    /// This route with one more pair at the end of its query.
    pub open spec fn add_attribute_value(self, attribute: Seq<char>, value: Seq<char>) -> RouteView {
        RouteView { path: self.path, query: self.query.push((attribute, value)) }
    }

    /// This route after `add_segment` for each of `segments` in turn.
    pub open spec fn add_segments(self, segments: Seq<Seq<char>>) -> RouteView
        decreases segments.len(),
    {
        if segments.len() == 0 {
            self
        } else {
            self.add_segments(segments.drop_last()).add_segment(segments.last())
        }
    }

    /// This route after `add_attribute_value` for each of `pairs` in turn.
    pub open spec fn add_attribute_values(self, pairs: Seq<(Seq<char>, Seq<char>)>) -> RouteView
        decreases pairs.len(),
    {
        if pairs.len() == 0 {
            self
        } else {
            let pair = pairs.last();
            self.add_attribute_values(pairs.drop_last()).add_attribute_value(pair.0, pair.1)
        }
    }

    /// The path on the wire: `/` and the segments joined by `/`.
    pub open spec fn path_text(self) -> Seq<char> {
        seq!['/'] + joined(self.path, seq!['/'])
    }

    /// The query on the wire: nothing where there is no pair, else `?` and
    /// the pairs joined by `&`.
    pub open spec fn query_text(self) -> Seq<char> {
        if self.query.len() > 0 {
            seq!['?'] + joined(pair_texts(self.query), seq!['&'])
        } else {
            Seq::empty()
        }
    }

    /// The route on the wire: its path, then its query.
    pub open spec fn wire(self) -> Seq<char> {
        self.path_text() + self.query_text()
    }
}

#[derive(Debug)]
struct AttributeValue {
    attribute: String,
    value: String,
}

impl AttributeValue {
    /// The pair as `name=value`, the value percent-encoded.
    fn render(&self) -> (s: String)
        ensures
            s@ == pair_text(self.attribute@, self.value@),
    {
        proof {
            reveal_strlit("=");
        }
        let encoded_value = encode_query_value(self.value.as_str());
        let s = self.attribute.clone().concat("=").concat(encoded_value.as_str());
        assert(s@ =~= pair_text(self.attribute@, self.value@));
        s
    }
}

impl PartialEq for AttributeValue {
    fn eq(&self, other: &AttributeValue) -> (r: bool) {
        self.attribute == other.attribute && self.value == other.value
    }
}

impl PartialEqSpecImpl for AttributeValue {
    open spec fn obeys_eq_spec() -> bool {
        true
    }

    closed spec fn eq_spec(&self, other: &AttributeValue) -> bool {
        self.attribute@ == other.attribute@ && self.value@ == other.value@
    }
}

/// Whether two lists of strings hold the same texts in the same order.
fn same_texts(a: &Vec<String>, b: &Vec<String>) -> (r: bool)
    ensures
        r == (texts(a@) == texts(b@)),
{
    if a.len() != b.len() {
        assert(texts(a@).len() != texts(b@).len());
        return false;
    }
    let mut i: usize = 0;
    while i < a.len()
        invariant
            a@.len() == b@.len(),
            i <= a@.len(),
            forall|j: int| 0 <= j < i ==> (#[trigger] a@[j])@ == b@[j]@,
        decreases a@.len() - i,
    {
        if !(a[i] == b[i]) {
            assert(texts(a@)[i as int] != texts(b@)[i as int]);
            return false;
        }
        i += 1;
    }
    assert(texts(a@) =~= texts(b@));
    true
}

/// The pairs of a query as mathematics sees them.
spec fn pairs_view(query: Seq<AttributeValue>) -> Seq<(Seq<char>, Seq<char>)> {
    Seq::new(query.len(), |i: int| (query[i].attribute@, query[i].value@))
}

/// Whether two queries hold the same pairs in the same order.
fn same_pairs(a: &Vec<AttributeValue>, b: &Vec<AttributeValue>) -> (r: bool)
    ensures
        r == (pairs_view(a@) == pairs_view(b@)),
{
    if a.len() != b.len() {
        assert(pairs_view(a@).len() != pairs_view(b@).len());
        return false;
    }
    let mut i: usize = 0;
    while i < a.len()
        invariant
            a@.len() == b@.len(),
            i <= a@.len(),
            forall|j: int| 0 <= j < i ==> pairs_view(a@)[j] == pairs_view(b@)[j],
        decreases a@.len() - i,
    {
        if !(a[i] == b[i]) {
            assert(pairs_view(a@)[i as int] != pairs_view(b@)[i as int]);
            return false;
        }
        i += 1;
    }
    assert(pairs_view(a@) =~= pairs_view(b@));
    true
}

/// The path and query string of a request, built up by appending.
#[derive(Debug)]
pub struct Route {
    path: Vec<String>,
    query: Vec<AttributeValue>,
}

impl View for Route {
    type V = RouteView;

    closed spec fn view(&self) -> RouteView {
        RouteView {
            path: texts(self.path@),
            query: pairs_view(self.query@),
        }
    }
}

impl PartialEq for Route {
    fn eq(&self, other: &Route) -> (r: bool) {
        same_texts(&self.path, &other.path) && same_pairs(&self.query, &other.query)
    }
}

/// Two routes are equal when they have the same segments and the same query
/// pairs, each in the same order.
impl PartialEqSpecImpl for Route {
    open spec fn obeys_eq_spec() -> bool {
        true
    }

    open spec fn eq_spec(&self, other: &Route) -> bool {
        self@ == other@
    }
}

impl Default for Route {
    fn default() -> (route: Route)
        ensures
            route@ == RouteView::empty(),
    {
        let route = Route { path: Vec::new(), query: Vec::new() };
        assert(route@.path =~= Seq::empty());
        assert(route@.query =~= Seq::empty());
        route
    }
}

impl Route {
    /// The empty route, which renders as `/`.
    pub fn new() -> (route: Route)
        ensures
            route@ == RouteView::empty(),
    {
        Route::default()
    }

    /// Appends a pair to the query: the name and the value, each as the text
    /// that it displays as. Neither text is checked or changed here; the
    /// value is percent-encoded when the route is rendered.
    pub fn add_attribute_value<T: Display + ?Sized, U: Display + ?Sized>(
        self,
        attribute: &T,
        value: &U,
    ) -> (route: Route)
        ensures
            exists|name: String, text: String|
                {
                    &&& #[trigger] to_string_from_display_ensures::<T>(attribute, name)
                    &&& #[trigger] to_string_from_display_ensures::<U>(value, text)
                    &&& route@ == self@.add_attribute_value(name@, text@)
                },
    {
        let name = attribute.to_string();
        let text = value.to_string();
        let ghost shown = (name, text);
        let route = self.with_attribute_value(name, text);
        assert(to_string_from_display_ensures::<T>(attribute, shown.0)
            && to_string_from_display_ensures::<U>(value, shown.1) && route@
            == self@.add_attribute_value(shown.0@, shown.1@));
        route
    }

    /// Appends a pair of texts to the query, as they are.
    pub fn with_attribute_value(self, attribute: String, value: String) -> (route: Route)
        ensures
            route@ == self@.add_attribute_value(attribute@, value@),
    {
        let mut route = self;
        route.query.push(AttributeValue { attribute, value });
        assert(route@.path =~= self@.path);
        assert(route@.query =~= self@.query.push((attribute@, value@)));
        route
    }

    /// Appends a segment to the path: the text that `segment` displays as,
    /// as it is. Segments are taken to be literal path tokens and are never
    /// escaped.
    pub fn add_segment<T: Display + ?Sized>(self, segment: &T) -> (route: Route)
        ensures
            exists|text: String|
                {
                    &&& #[trigger] to_string_from_display_ensures::<T>(segment, text)
                    &&& route@ == self@.add_segment(text@)
                },
    {
        let text = segment.to_string();
        let ghost shown = text;
        let route = self.with_segment(text);
        assert(to_string_from_display_ensures::<T>(segment, shown) && route@
            == self@.add_segment(shown@));
        route
    }

    /// Appends a text to the path, as it is.
    pub fn with_segment(self, segment: String) -> (route: Route)
        ensures
            route@ == self@.add_segment(segment@),
    {
        let mut route = self;
        route.path.push(segment);
        assert(route@.path =~= self@.path.push(segment@));
        assert(route@.query =~= self@.query);
        route
    }

    /// The wire form of each query pair, in order.
    fn rendered_query(&self) -> (rendered: Vec<String>)
        ensures
            texts(rendered@) == pair_texts(self@.query),
    {
        let mut rendered: Vec<String> = Vec::new();
        let mut i: usize = 0;
        while i < self.query.len()
            invariant
                i <= self.query@.len(),
                rendered@.len() == i,
                forall|j: int|
                    0 <= j < i ==> (#[trigger] rendered@[j])@ == pair_text(
                        self.query@[j].attribute@,
                        self.query@[j].value@,
                    ),
            decreases self.query@.len() - i,
        {
            rendered.push(self.query[i].render());
            i += 1;
        }
        assert(texts(rendered@) =~= pair_texts(self@.query));
        rendered
    }

    /// Renders the route as it goes on the wire: `/` and the segments joined
    /// by `/`, then, where there is a query, `?` and the pairs joined by `&`,
    /// each pair as `name=value` with the value percent-encoded.
    pub fn to_string(&self) -> (s: String)
        ensures
            s@ == self@.wire(),
    {
        proof {
            reveal_strlit("/");
            reveal_strlit("?");
            reveal_strlit("&");
            assert(is_ascii("/") && is_ascii("&"));
            is_ascii_spec_bytes("/");
            is_ascii_spec_bytes("&");
            assert("/".spec_bytes().len() == 1 && "&".spec_bytes().len() == 1);
            assert("/"@ =~= seq!['/'] && "?"@ =~= seq!['?'] && "&"@ =~= seq!['&']);
        }
        let path = String::from_str("/").concat(join_strings(&self.path, "/").as_str());
        let query = if !self.query.is_empty() {
            let rendered = self.rendered_query();
            String::from_str("?").concat(join_strings(&rendered, "&").as_str())
        } else {
            String::new()
        };
        path.concat(query.as_str())
    }
}

/// Adding segments one after another appends them to the path in call
/// order and leaves the query as it was.
pub proof fn lemma_add_segments(route: RouteView, segments: Seq<Seq<char>>)
    ensures
        route.add_segments(segments) == (RouteView {
            path: route.path + segments,
            query: route.query,
        }),
    decreases segments.len(),
{
    if segments.len() == 0 {
        assert(route.path + segments =~= route.path);
    } else {
        lemma_add_segments(route, segments.drop_last());
        assert((route.path + segments.drop_last()).push(segments.last()) =~= route.path + segments);
    }
}

/// Adding query pairs one after another appends them to the query in call
/// order and leaves the path as it was.
pub proof fn lemma_add_attribute_values(route: RouteView, pairs: Seq<(Seq<char>, Seq<char>)>)
    ensures
        route.add_attribute_values(pairs) == (RouteView {
            path: route.path,
            query: route.query + pairs,
        }),
    decreases pairs.len(),
{
    if pairs.len() == 0 {
        assert(route.query + pairs =~= route.query);
    } else {
        lemma_add_attribute_values(route, pairs.drop_last());
        assert((route.query + pairs.drop_last()).push(pairs.last()) =~= route.query + pairs);
    }
}

/// A route built from segments alone renders as `/` and the segments joined
/// by `/`, in the order in which they were added: `/` for none, `/seg` for
/// one.
pub proof fn lemma_segments_wire(segments: Seq<Seq<char>>)
    ensures
        RouteView::empty().add_segments(segments).wire() == seq!['/'] + joined(
            segments,
            seq!['/'],
        ),
        segments.len() == 0 ==> RouteView::empty().add_segments(segments).wire() == seq!['/'],
        segments.len() == 1 ==> RouteView::empty().add_segments(segments).wire() == seq!['/']
            + segments[0],
{
    let route = RouteView::empty();
    lemma_add_segments(route, segments);
    assert(route.path + segments =~= segments);
    assert(route.add_segments(segments).wire() =~= seq!['/'] + joined(segments, seq!['/']));
    if segments.len() == 0 {
        assert(seq!['/'] + joined(segments, seq!['/']) =~= seq!['/']);
    }
}

/// A route built from segments and then query pairs renders as its path,
/// and, where there is a pair, `?` and the pairs joined by `&` in the order
/// in which they were added. Each pair is its name as it is, `=`, and its
/// value percent-encoded.
pub proof fn lemma_segments_then_query_wire(
    segments: Seq<Seq<char>>,
    pairs: Seq<(Seq<char>, Seq<char>)>,
)
    ensures
        RouteView::empty().add_segments(segments).add_attribute_values(pairs).wire() == seq!['/']
            + joined(segments, seq!['/']) + (if pairs.len() == 0 {
            Seq::empty()
        } else {
            seq!['?'] + joined(pair_texts(pairs), seq!['&'])
        }),
        pair_texts(pairs).len() == pairs.len(),
        forall|i: int|
            0 <= i < pairs.len() ==> #[trigger] pair_texts(pairs)[i] == pairs[i].0 + seq!['=']
                + value_encoded(encode_utf8(pairs[i].1)),
{
    let with_path = RouteView::empty().add_segments(segments);
    lemma_add_segments(RouteView::empty(), segments);
    lemma_add_attribute_values(with_path, pairs);
    assert(RouteView::empty().path + segments =~= segments);
    assert(with_path.query + pairs =~= pairs);
}

/// Whatever a query value holds, what follows `name=` in its pair is free
/// of every character of the value encode set: no `&`, no space, no `"`,
/// `#`, `<`, `>`, `` ` ``, `?`, `{` or `}`, no control and nothing beyond
/// ASCII.
pub proof fn lemma_pair_value_is_clean(attribute: Seq<char>, value: Seq<char>)
    ensures
        forall|i: int|
            attribute.len() < i < pair_text(attribute, value).len() ==> is_value_char(
                #[trigger] pair_text(attribute, value)[i],
            ),
        forall|i: int|
            attribute.len() < i < pair_text(attribute, value).len() ==> {
                &&& #[trigger] pair_text(attribute, value)[i] != '&'
                &&& pair_text(attribute, value)[i] != ' '
            },
{
    let encoded = value_encoded(encode_utf8(value));
    lemma_value_encoded_is_clean(encode_utf8(value));
    assert forall|i: int| attribute.len() < i < pair_text(attribute, value).len() implies is_value_char(
        #[trigger] pair_text(attribute, value)[i],
    ) by {
        assert(pair_text(attribute, value)[i] == encoded[i - attribute.len() - 1]);
    }
}

/// How often a character stands in a text.
pub open spec fn occurrences(text: Seq<char>, c: char) -> nat
    decreases text.len(),
{
    if text.len() == 0 {
        0
    } else {
        occurrences(text.drop_last(), c) + if text.last() == c {
            1nat
        } else {
            0nat
        }
    }
}

proof fn lemma_occurrences_concat(a: Seq<char>, b: Seq<char>, c: char)
    ensures
        occurrences(a + b, c) == occurrences(a, c) + occurrences(b, c),
    decreases b.len(),
{
    if b.len() == 0 {
        assert(a + b =~= a);
    } else {
        lemma_occurrences_concat(a, b.drop_last(), c);
        assert((a + b).drop_last() =~= a + b.drop_last());
        assert((a + b).last() == b.last());
    }
}

proof fn lemma_occurrences_none(text: Seq<char>, c: char)
    requires
        forall|i: int| 0 <= i < text.len() ==> #[trigger] text[i] != c,
    ensures
        occurrences(text, c) == 0,
    decreases text.len(),
{
    if text.len() > 0 {
        assert(text.last() != c);
        assert forall|i: int| 0 <= i < text.drop_last().len() implies #[trigger] text.drop_last()[i]
            != c by {
            assert(text.drop_last()[i] == text[i]);
        }
        lemma_occurrences_none(text.drop_last(), c);
    }
}

/// A pair whose name holds no `&` holds none at all.
proof fn lemma_pair_text_has_no_separator(attribute: Seq<char>, value: Seq<char>)
    requires
        occurrences(attribute, '&') == 0,
    ensures
        occurrences(pair_text(attribute, value), '&') == 0,
{
    let encoded = value_encoded(encode_utf8(value));
    lemma_value_encoded_is_clean(encode_utf8(value));
    assert forall|i: int| 0 <= i < encoded.len() implies #[trigger] encoded[i] != '&' by {
        assert(is_value_char(encoded[i]));
    }
    lemma_occurrences_none(encoded, '&');
    lemma_occurrences_none(seq!['='], '&');
    lemma_occurrences_concat(attribute, seq!['='], '&');
    lemma_occurrences_concat(attribute + seq!['='], encoded, '&');
}

/// Where no name holds an `&`, the query text of one or more pairs holds
/// exactly one `&` less than there are pairs: each one separates two
/// neighbours, and none stands inside a pair.
pub proof fn lemma_query_separators(pairs: Seq<(Seq<char>, Seq<char>)>)
    requires
        pairs.len() > 0,
        forall|i: int| 0 <= i < pairs.len() ==> occurrences(#[trigger] pairs[i].0, '&') == 0,
    ensures
        occurrences(joined(pair_texts(pairs), seq!['&']), '&') == pairs.len() - 1,
    decreases pairs.len(),
{
    let items = pair_texts(pairs);
    let last = pairs.last();
    assert(items.last() == pair_text(last.0, last.1));
    lemma_pair_text_has_no_separator(last.0, last.1);
    if pairs.len() > 1 {
        let front = pairs.drop_last();
        assert forall|i: int| 0 <= i < front.len() implies occurrences(
            #[trigger] front[i].0,
            '&',
        ) == 0 by {
            assert(front[i] == pairs[i]);
        }
        lemma_query_separators(front);
        assert(items.drop_last() =~= pair_texts(front));
        let head = joined(items.drop_last(), seq!['&']);
        lemma_occurrences_concat(head, seq!['&'], '&');
        lemma_occurrences_concat(head + seq!['&'], items.last(), '&');
        assert(seq!['&'].drop_last() =~= Seq::<char>::empty());
        assert(occurrences(Seq::<char>::empty(), '&') == 0);
        assert(occurrences(seq!['&'], '&') == 1);
    }
}

} // verus!
