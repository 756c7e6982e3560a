//! The request as the dispatcher sees it: method, path segments, query
//! fields, headers, cookies and body. A path segment comes with what
//! percent-decoding makes of it, the value of a query or form field with what
//! URL decoding makes of it, which reads a `+` as a space.

use crate::decode::{percent_decode, percent_decoded, text_of, url_decode, url_decoded};
use crate::text::{chars_of, find, index_of, pieces, slice_of, split};
use vstd::prelude::*;
use vstd::string::*;

verus! {

/// The method of a request or of a route.
#[derive(Clone, Copy, Debug, PartialEq, Eq, Structural)]
pub enum Method {
    Get,
    Put,
    Post,
    Delete,
    Options,
    Head,
    Patch,
}

/// A text as it was received, and what decoding makes of it (`None` where it
/// cannot be decoded).
#[derive(Clone, Debug, PartialEq, Eq)]
pub struct Piece {
    pub raw: String,
    pub decoded: Option<String>,
}

/// The mathematical model of a [`Piece`].
pub struct PieceView {
    pub raw: Seq<char>,
    pub decoded: Option<Seq<char>>,
}

impl DeepView for Piece {
    type V = PieceView;

    open spec fn deep_view(&self) -> PieceView {
        PieceView { raw: self.raw@, decoded: text_of(self.decoded) }
    }
}

impl View for Piece {
    type V = PieceView;

    open spec fn view(&self) -> PieceView {
        self.deep_view()
    }
}

/// The piece that a segment of a path makes: it is percent-decoded, so a `+`
/// in it stays a `+`.
pub open spec fn segment_piece(raw: Seq<char>) -> PieceView {
    PieceView { raw, decoded: percent_decoded(raw) }
}

/// The piece that the value of a query or form field makes: it is URL
/// decoded, so a `+` in it is a space.
pub open spec fn value_piece(raw: Seq<char>) -> PieceView {
    PieceView { raw, decoded: url_decoded(raw) }
}

impl Piece {
    /// A piece from a text and the result of decoding it.
    pub fn from_parts(raw: String, decoded: Option<String>) -> (piece: Piece)
        ensures
            piece@ == (PieceView { raw: raw@, decoded: text_of(decoded) }),
    {
        Piece { raw, decoded }
    }

    /// The piece that a segment of a path makes.
    pub fn segment(raw: &str) -> (piece: Piece)
        ensures
            piece@ == segment_piece(raw@),
    {
        let decoded = percent_decode(raw);
        Piece::from_parts(raw.to_owned(), decoded)
    }

    /// The piece that the value of a query or form field makes.
    pub fn value(raw: &str) -> (piece: Piece)
        ensures
            piece@ == value_piece(raw@),
    {
        let decoded = url_decode(raw);
        Piece::from_parts(raw.to_owned(), decoded)
    }
}

/// A key with its value, as a query string or a form body holds them.
#[derive(Clone, Debug, PartialEq, Eq)]
pub struct Field {
    pub key: String,
    pub value: Piece,
}

/// The mathematical model of a [`Field`].
pub struct FieldView {
    pub key: Seq<char>,
    pub value: PieceView,
}

impl DeepView for Field {
    type V = FieldView;

    open spec fn deep_view(&self) -> FieldView {
        FieldView { key: self.key@, value: self.value@ }
    }
}

impl View for Field {
    type V = FieldView;

    open spec fn view(&self) -> FieldView {
        self.deep_view()
    }
}

/// The key of an item `key=value` or `key`: what stands before the first `=`.
pub open spec fn key_of(item: Seq<char>) -> Seq<char> {
    item.take(index_of(item, '='))
}

/// The value of an item `key=value` as it is written: what follows the first
/// `=`, or nothing where the item has none.
pub open spec fn raw_value_of(item: Seq<char>) -> Seq<char> {
    if index_of(item, '=') < item.len() {
        item.skip(index_of(item, '=') + 1)
    } else {
        Seq::empty()
    }
}

/// The field that an item `key=value` or `key` makes.
pub open spec fn field_of(item: Seq<char>) -> FieldView {
    FieldView { key: key_of(item), value: value_piece(raw_value_of(item)) }
}

/// The fields of a query string or a form body: its items between `&`.
pub open spec fn fields_of(text: Seq<char>) -> Seq<FieldView> {
    pieces(text, '&').map_values(|item: Seq<char>| field_of(item))
}

/// The segments of a path: its pieces between `/`.
pub open spec fn path_of(text: Seq<char>) -> Seq<PieceView> {
    pieces(text, '/').map_values(|raw: Seq<char>| segment_piece(raw))
}

impl Field {
    /// A field from a key and its value.
    pub fn from_parts(key: String, value: Piece) -> (field: Field)
        ensures
            field@ == (FieldView { key: key@, value: value@ }),
    {
        Field { key, value }
    }

    /// Reads an item `key=value` or `key`.
    pub fn parse(item: &str) -> (field: Field)
        ensures
            field@ == field_of(item@),
    {
        let chars = chars_of(item);
        let len = chars.len();
        let eq = find(&chars, '=');
        let key = slice_of(item, 0, eq);
        let raw = if eq < len {
            slice_of(item, eq + 1, len)
        } else {
            String::new()
        };
        proof {
            assert(item@.subrange(0, eq as int) =~= item@.take(eq as int));
            if eq < len {
                assert(item@.subrange(eq + 1, len as int) =~= item@.skip(eq + 1));
            }
        }
        Field::from_parts(key, Piece::value(raw.as_str()))
    }
}

/// Reads the fields of a query string or of a form body.
pub fn parse_fields(text: &str) -> (fields: Vec<Field>)
    ensures
        fields.deep_view() == fields_of(text@),
{
    let items = split(text, '&');
    let mut fields: Vec<Field> = Vec::new();
    let mut i: usize = 0;
    while i < items.len()
        invariant
            i <= items.len(),
            items.deep_view() == pieces(text@, '&'),
            fields.len() == i,
            forall|j: int| 0 <= j < i ==> fields[j]@ == field_of(#[trigger] items[j]@),
        decreases items.len() - i,
    {
        let field = Field::parse(items[i].as_str());
        fields.push(field);
        i = i + 1;
    }
    proof {
        assert forall|j: int| 0 <= j < fields.len() implies fields.deep_view()[j] == fields_of(
            text@,
        )[j] by {
            assert(items.deep_view()[j] == items[j]@);
        }
        assert(fields.deep_view() =~= fields_of(text@));
    }
    fields
}

/// Reads the segments of a path.
pub fn parse_path(text: &str) -> (path: Vec<Piece>)
    ensures
        path.deep_view() == path_of(text@),
{
    let items = split(text, '/');
    let mut path: Vec<Piece> = Vec::new();
    let mut i: usize = 0;
    while i < items.len()
        invariant
            i <= items.len(),
            items.deep_view() == pieces(text@, '/'),
            path.len() == i,
            forall|j: int| 0 <= j < i ==> path[j]@ == segment_piece(#[trigger] items[j]@),
        decreases items.len() - i,
    {
        let piece = Piece::segment(items[i].as_str());
        path.push(piece);
        i = i + 1;
    }
    proof {
        assert forall|j: int| 0 <= j < path.len() implies path.deep_view()[j] == path_of(
            text@,
        )[j] by {
            assert(items.deep_view()[j] == items[j]@);
        }
        assert(path.deep_view() =~= path_of(text@));
    }
    path
}

/// A header or a cookie: a name and its value.
#[derive(Clone, Debug, PartialEq, Eq)]
pub struct Pair {
    pub name: String,
    pub value: String,
}

/// The mathematical model of a [`Pair`].
pub struct PairView {
    pub name: Seq<char>,
    pub value: Seq<char>,
}

impl DeepView for Pair {
    type V = PairView;

    open spec fn deep_view(&self) -> PairView {
        PairView { name: self.name@, value: self.value@ }
    }
}

impl View for Pair {
    type V = PairView;

    open spec fn view(&self) -> PairView {
        self.deep_view()
    }
}

impl Pair {
    pub fn new(name: &str, value: &str) -> (pair: Pair)
        ensures
            pair@ == (PairView { name: name@, value: value@ }),
    {
        Pair { name: name.to_owned(), value: value.to_owned() }
    }
}

/// One request, owned by the worker that handles it.
#[derive(Clone, Debug, PartialEq, Eq)]
pub struct RequestContext {
    pub method: Method,
    pub path: Vec<Piece>,
    pub query: Vec<Field>,
    pub headers: Vec<Pair>,
    pub cookies: Vec<Pair>,
    pub body: String,
}

/// The mathematical model of a [`RequestContext`].
pub struct RequestView {
    pub method: Method,
    pub path: Seq<PieceView>,
    pub query: Seq<FieldView>,
    pub headers: Seq<PairView>,
    pub cookies: Seq<PairView>,
    pub body: Seq<char>,
}

impl DeepView for RequestContext {
    type V = RequestView;

    open spec fn deep_view(&self) -> RequestView {
        RequestView {
            method: self.method,
            path: self.path.deep_view(),
            query: self.query.deep_view(),
            headers: self.headers.deep_view(),
            cookies: self.cookies.deep_view(),
            body: self.body@,
        }
    }
}

impl View for RequestContext {
    type V = RequestView;

    open spec fn view(&self) -> RequestView {
        self.deep_view()
    }
}

/// The path of a request target: what stands before the first `?`.
pub open spec fn target_path(target: Seq<char>) -> Seq<char> {
    target.take(index_of(target, '?'))
}

/// The query string of a request target: what follows the first `?`.
pub open spec fn target_query(target: Seq<char>) -> Seq<char> {
    if index_of(target, '?') < target.len() {
        target.skip(index_of(target, '?') + 1)
    } else {
        Seq::empty()
    }
}

impl RequestContext {
    /// The request for `target`, a path with an optional `?` and query
    /// string, with no headers, no cookies and an empty body.
    pub fn new(method: Method, target: &str) -> (ctx: RequestContext)
        ensures
            ctx@ == (RequestView {
                method,
                path: path_of(target_path(target@)),
                query: fields_of(target_query(target@)),
                headers: Seq::empty(),
                cookies: Seq::empty(),
                body: Seq::empty(),
            }),
    {
        let chars = chars_of(target);
        let len = chars.len();
        let mark = find(&chars, '?');
        let path_text = slice_of(target, 0, mark);
        let query_text = if mark < len {
            slice_of(target, mark + 1, len)
        } else {
            String::new()
        };
        proof {
            assert(target@.subrange(0, mark as int) =~= target@.take(mark as int));
            if mark < len {
                assert(target@.subrange(mark + 1, len as int) =~= target@.skip(mark + 1));
            }
        }
        let path = parse_path(path_text.as_str());
        let query = parse_fields(query_text.as_str());
        let headers: Vec<Pair> = Vec::new();
        let cookies: Vec<Pair> = Vec::new();
        let ctx = RequestContext { method, path, query, headers, cookies, body: String::new() };
        proof {
            assert(ctx.headers.deep_view() =~= Seq::<PairView>::empty());
            assert(ctx.cookies.deep_view() =~= Seq::<PairView>::empty());
        }
        ctx
    }

    /// This request with one more header.
    pub fn with_header(self, name: &str, value: &str) -> (ctx: RequestContext)
        ensures
            ctx@ == (RequestView {
                headers: self@.headers.push(PairView { name: name@, value: value@ }),
                ..self@
            }),
    {
        let mut ctx = self;
        ctx.headers.push(Pair::new(name, value));
        proof {
            assert(ctx.headers.deep_view() =~= self@.headers.push(
                PairView { name: name@, value: value@ },
            ));
        }
        ctx
    }

    /// This request with one more cookie.
    pub fn with_cookie(self, name: &str, value: &str) -> (ctx: RequestContext)
        ensures
            ctx@ == (RequestView {
                cookies: self@.cookies.push(PairView { name: name@, value: value@ }),
                ..self@
            }),
    {
        let mut ctx = self;
        ctx.cookies.push(Pair::new(name, value));
        proof {
            assert(ctx.cookies.deep_view() =~= self@.cookies.push(
                PairView { name: name@, value: value@ },
            ));
        }
        ctx
    }

    /// This request with `body` as its body.
    pub fn with_body(self, body: &str) -> (ctx: RequestContext)
        ensures
            ctx@ == (RequestView { body: body@, ..self@ }),
    {
        let mut ctx = self;
        ctx.body = body.to_owned();
        ctx
    }
}

} // verus!
