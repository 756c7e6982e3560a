//! Binding a request's path and query to the parameters that a route
//! declares: each parameter's text is read as its declared type, and a
//! parameter that cannot be bound makes the route forward.

use crate::form::{
    decode,
    decoded_record,
    field_value,
    read_field,
    Entry,
    EntryView,
    FieldSpec,
    FieldSpecView,
    Policy,
};
use crate::pattern::{shape_accepts, PathPattern, Segment, SegmentView};
use crate::request::{Field, FieldView, Piece, PieceView, RequestContext, RequestView};
use crate::text::{chars_of, find, same_text};
use crate::value::{BaseType, Mode, ParamType, Value, ValueView};
use vstd::prelude::*;
use vstd::string::*;

verus! {

/// What came of matching one declared parameter against the request.
#[derive(Clone, Debug, PartialEq, Eq)]
pub enum BoundValue {
    /// The parameter is bound to this value.
    Bound(Value),
    /// The text, given here as it was received, is not of the parameter's type.
    TypeMismatch(String),
    /// The request holds nothing for the parameter.
    Missing,
}

/// The mathematical model of a [`BoundValue`].
pub enum BoundView {
    Bound(ValueView),
    TypeMismatch(Seq<char>),
    Missing,
}

impl DeepView for BoundValue {
    type V = BoundView;

    open spec fn deep_view(&self) -> BoundView {
        match *self {
            BoundValue::Bound(v) => BoundView::Bound(v@),
            BoundValue::TypeMismatch(raw) => BoundView::TypeMismatch(raw@),
            BoundValue::Missing => BoundView::Missing,
        }
    }
}

impl View for BoundValue {
    type V = BoundView;

    open spec fn view(&self) -> BoundView {
        self.deep_view()
    }
}

/// A parameter that a route declares in its query string.
#[derive(Clone, Debug, PartialEq, Eq)]
pub enum QueryParam {
    /// A key that the query must hold, whatever its value.
    Flag(String),
    /// A key whose value is read as a type; where the last field is `true`
    /// the query must hold the key.
    Typed(String, BaseType, bool),
}

/// The mathematical model of a [`QueryParam`].
pub enum QueryParamView {
    Flag(Seq<char>),
    Typed(Seq<char>, BaseType, bool),
}

impl DeepView for QueryParam {
    type V = QueryParamView;

    open spec fn deep_view(&self) -> QueryParamView {
        match *self {
            QueryParam::Flag(name) => QueryParamView::Flag(name@),
            QueryParam::Typed(name, base, required) => QueryParamView::Typed(name@, base, required),
        }
    }
}

impl View for QueryParam {
    type V = QueryParamView;

    open spec fn view(&self) -> QueryParamView {
        self.deep_view()
    }
}

impl QueryParamView {
    /// The query key that the parameter claims.
    pub open spec fn key(self) -> Seq<char> {
        match self {
            QueryParamView::Flag(name) => name,
            QueryParamView::Typed(name, _, _) => name,
        }
    }
}

/// What a route declares of the query string: its parameters, and the
/// schema of the record that takes the keys that no parameter claims.
#[derive(Clone, Debug, PartialEq, Eq)]
pub struct QuerySpec {
    pub params: Vec<QueryParam>,
    pub bundle: Option<Vec<FieldSpec>>,
}

/// The mathematical model of a [`QuerySpec`].
pub struct QuerySpecView {
    pub params: Seq<QueryParamView>,
    pub bundle: Option<Seq<FieldSpecView>>,
}

impl DeepView for QuerySpec {
    type V = QuerySpecView;

    open spec fn deep_view(&self) -> QuerySpecView {
        QuerySpecView { params: self.params.deep_view(), bundle: self.bundle.deep_view() }
    }
}

impl View for QuerySpec {
    type V = QuerySpecView;

    open spec fn view(&self) -> QuerySpecView {
        self.deep_view()
    }
}

impl QuerySpec {
    /// A route that declares nothing of the query string.
    pub fn none() -> (spec: QuerySpec)
        ensures
            spec@ == (QuerySpecView { params: Seq::empty(), bundle: None }),
    {
        let params: Vec<QueryParam> = Vec::new();
        let spec = QuerySpec { params, bundle: None };
        proof {
            assert(spec.params.deep_view() =~= Seq::<QueryParamView>::empty());
        }
        spec
    }

    /// With a key that the query must hold.
    pub fn flag(self, name: &str) -> (spec: QuerySpec)
        ensures
            spec@ == (QuerySpecView {
                params: self@.params.push(QueryParamView::Flag(name@)),
                ..self@
            }),
    {
        let mut spec = self;
        spec.params.push(QueryParam::Flag(name.to_owned()));
        proof {
            assert(spec.params.deep_view() =~= self@.params.push(QueryParamView::Flag(name@)));
        }
        spec
    }

    /// With a key whose value is read as `base`.
    pub fn typed(self, name: &str, base: BaseType, required: bool) -> (spec: QuerySpec)
        ensures
            spec@ == (QuerySpecView {
                params: self@.params.push(QueryParamView::Typed(name@, base, required)),
                ..self@
            }),
    {
        let mut spec = self;
        spec.params.push(QueryParam::Typed(name.to_owned(), base, required));
        proof {
            assert(spec.params.deep_view() =~= self@.params.push(
                QueryParamView::Typed(name@, base, required),
            ));
        }
        spec
    }

    /// With `schema` for the keys that no parameter claims.
    pub fn bundle(self, schema: Vec<FieldSpec>) -> (spec: QuerySpec)
        ensures
            spec@ == (QuerySpecView { bundle: Some(schema.deep_view()), ..self@ }),
    {
        let mut spec = self;
        spec.bundle = Some(schema);
        spec
    }
}

/// The values that a route's parameters were bound to.
#[derive(Clone, Debug, PartialEq, Eq)]
pub struct BoundValues {
    /// One value for each parameter of the path, in order.
    pub path: Vec<Value>,
    /// One value for each typed parameter of the query, in order.
    pub query: Vec<Value>,
    /// The record decoded from the unclaimed query keys, where the route
    /// declares one.
    pub bundle: Option<Vec<Entry>>,
}

/// The mathematical model of [`BoundValues`].
pub struct BoundValuesView {
    pub path: Seq<ValueView>,
    pub query: Seq<ValueView>,
    pub bundle: Option<Seq<EntryView>>,
}

impl DeepView for BoundValues {
    type V = BoundValuesView;

    open spec fn deep_view(&self) -> BoundValuesView {
        BoundValuesView {
            path: self.path.deep_view(),
            query: self.query.deep_view(),
            bundle: self.bundle.deep_view(),
        }
    }
}

impl View for BoundValues {
    type V = BoundValuesView;

    open spec fn view(&self) -> BoundValuesView {
        self.deep_view()
    }
}

/// What a single path segment is bound to as a parameter of type `ty`: the
/// value that it denotes; where it denotes none, a mismatch
/// for a strict type, the empty value for an optional one and the received
/// text for a fallible one.
pub open spec fn bound_segment(ty: ParamType, piece: PieceView) -> BoundView {
    match field_value(ty.base, piece) {
        Some(v) => BoundView::Bound(v),
        None => match ty.mode {
            Mode::Strict => BoundView::TypeMismatch(piece.raw),
            Mode::Optional => BoundView::Bound(ValueView::Empty),
            Mode::Fallible => BoundView::Bound(ValueView::Rejected(piece.raw)),
        },
    }
}

/// A parameter of a failure-tolerant type is bound whatever the segment
/// holds.
pub proof fn tolerant_segment_always_binds(ty: ParamType, piece: PieceView)
    requires
        ty.tolerant(),
    ensures
        bound_segment(ty, piece) is Bound,
{
}

/// A parameter of a strict type is bound exactly where the segment denotes a
/// value of its base type.
pub proof fn strict_segment_binds_iff_coercible(ty: ParamType, piece: PieceView)
    requires
        !ty.tolerant(),
    ensures
        bound_segment(ty, piece) is Bound <==> field_value(ty.base, piece) is Some,
        bound_segment(ty, piece) !is Bound ==> bound_segment(ty, piece) == BoundView::TypeMismatch(
            piece.raw,
        ),
{
}

/// A decoded segment that would let a captured path leave its root: `..`,
/// or a text that holds a `/`.
pub open spec fn traverses(decoded: Seq<char>) -> bool {
    decoded == ".."@ || decoded.contains('/')
}

/// A decoded segment that adds nothing to a captured path: the empty text
/// and `.`.
pub open spec fn idle(decoded: Seq<char>) -> bool {
    decoded.len() == 0 || decoded == "."@
}

/// The path that the segments from position `from` on add to `so_far`: each
/// decoded, idle ones left out, the others joined by `/`; or `None` where a
/// segment cannot be decoded or traverses.
pub open spec fn captured_from(rest: Seq<PieceView>, from: int, so_far: Seq<char>) -> Option<
    Seq<char>,
>
    decreases rest.len() - from,
{
    if from < 0 || from >= rest.len() {
        Some(so_far)
    } else {
        match rest[from].decoded {
            None => None,
            Some(d) => if traverses(d) {
                None
            } else if idle(d) {
                captured_from(rest, from + 1, so_far)
            } else if so_far.len() == 0 {
                captured_from(rest, from + 1, d)
            } else {
                captured_from(rest, from + 1, so_far + seq!['/'] + d)
            },
        }
    }
}

/// The path that a multi-segment parameter captures from the segments of
/// `path` from position `from` on.
pub open spec fn captured(path: Seq<PieceView>, from: int) -> Option<Seq<char>> {
    captured_from(path, from, Seq::empty())
}

/// A capture over a segment that cannot be decoded, or that traverses, has no
/// value.
pub proof fn traversal_is_rejected(rest: Seq<PieceView>, from: int, so_far: Seq<char>, k: int)
    requires
        0 <= from <= k < rest.len(),
        match rest[k].decoded {
            None => true,
            Some(d) => traverses(d),
        },
    ensures
        captured_from(rest, from, so_far) is None,
    decreases k - from,
{
    if from < k {
        match rest[from].decoded {
            None => {},
            Some(d) => {
                if traverses(d) {
                } else if idle(d) {
                    traversal_is_rejected(rest, from + 1, so_far, k);
                } else if so_far.len() == 0 {
                    traversal_is_rejected(rest, from + 1, d, k);
                } else {
                    traversal_is_rejected(rest, from + 1, so_far + seq!['/'] + d, k);
                }
            },
        }
    }
}

/// The values of the path parameters from segment `from` on, or `None`
/// where one of them cannot be bound.
pub open spec fn path_values_from(segs: Seq<SegmentView>, path: Seq<PieceView>, from: int)
    -> Option<Seq<ValueView>>
    decreases segs.len() - from,
{
    if from < 0 || from >= segs.len() {
        Some(Seq::empty())
    } else {
        let here: Option<Seq<ValueView>> = match segs[from] {
            SegmentView::Static(_) => Some(Seq::empty()),
            SegmentView::Dynamic(_, ty) => if from < path.len() {
                match bound_segment(ty, path[from]) {
                    BoundView::Bound(v) => Some(seq![v]),
                    _ => None,
                }
            } else {
                None
            },
            SegmentView::Multi(_) => match captured(path, from) {
                Some(text) => Some(seq![ValueView::Text(text)]),
                None => None,
            },
        };
        match here {
            None => None,
            Some(values) => match path_values_from(segs, path, from + 1) {
                None => None,
                Some(rest) => Some(values + rest),
            },
        }
    }
}

/// The values of the path parameters of a pattern, in order.
pub open spec fn path_values(segs: Seq<SegmentView>, path: Seq<PieceView>) -> Option<
    Seq<ValueView>,
> {
    path_values_from(segs, path, 0)
}

/// A path parameter that cannot be bound leaves the whole path unbound.
pub proof fn unbound_segment_forwards(segs: Seq<SegmentView>, path: Seq<PieceView>, from: int, k: int)
    requires
        0 <= from <= k < segs.len(),
        k < path.len(),
        segs[k] matches SegmentView::Dynamic(_, ty) && bound_segment(ty, path[k]) !is Bound,
    ensures
        path_values_from(segs, path, from) is None,
    decreases k - from,
{
    if from < k {
        unbound_segment_forwards(segs, path, from + 1, k);
    }
}

/// A pattern of literals and of parameters of failure-tolerant types binds
/// every path that has a segment for each of its segments.
pub proof fn tolerant_path_always_binds(segs: Seq<SegmentView>, path: Seq<PieceView>, from: int)
    requires
        0 <= from <= segs.len() <= path.len(),
        forall|i: int|
            from <= i < segs.len() ==> match #[trigger] segs[i] {
                SegmentView::Static(_) => true,
                SegmentView::Dynamic(_, ty) => ty.tolerant(),
                SegmentView::Multi(_) => false,
            },
    ensures
        path_values_from(segs, path, from) is Some,
    decreases segs.len() - from,
{
    if from < segs.len() {
        tolerant_path_always_binds(segs, path, from + 1);
        match segs[from] {
            SegmentView::Static(_) => {},
            SegmentView::Dynamic(_, ty) => {
                tolerant_segment_always_binds(ty, path[from]);
            },
            SegmentView::Multi(_) => {},
        }
    }
}

/// A multi-segment parameter whose capture has no value leaves the whole
/// path unbound.
pub proof fn rejected_capture_forwards(segs: Seq<SegmentView>, path: Seq<PieceView>, from: int, k: int)
    requires
        0 <= from <= k < segs.len(),
        segs[k] is Multi,
        captured(path, k) is None,
    ensures
        path_values_from(segs, path, from) is None,
    decreases k - from,
{
    if from < k {
        rejected_capture_forwards(segs, path, from + 1, k);
    }
}

/// The value of the first of `query` from position `from` on whose key is
/// `key`.
pub open spec fn first_value(query: Seq<FieldView>, key: Seq<char>, from: int) -> Option<
    PieceView,
>
    decreases query.len() - from,
{
    if from < 0 || from >= query.len() {
        None
    } else if query[from].key == key {
        Some(query[from].value)
    } else {
        first_value(query, key, from + 1)
    }
}

/// What a query parameter is bound to: a flag to the empty value where the
/// query holds its key at all; a typed parameter to the value that the
/// first field of its key denotes, to the empty value where it is optional
/// and the query lacks the key.
pub open spec fn bound_query(param: QueryParamView, query: Seq<FieldView>) -> BoundView {
    match param {
        QueryParamView::Flag(name) => match first_value(query, name, 0) {
            Some(_) => BoundView::Bound(ValueView::Empty),
            None => BoundView::Missing,
        },
        QueryParamView::Typed(name, base, required) => match first_value(query, name, 0) {
            None => if required {
                BoundView::Missing
            } else {
                BoundView::Bound(ValueView::Empty)
            },
            Some(piece) => match field_value(base, piece) {
                Some(v) => BoundView::Bound(v),
                None => BoundView::TypeMismatch(piece.raw),
            },
        },
    }
}

/// The values of the typed query parameters from position `from` on, or
/// `None` where a parameter cannot be bound.
pub open spec fn query_values_from(params: Seq<QueryParamView>, query: Seq<FieldView>, from: int)
    -> Option<Seq<ValueView>>
    decreases params.len() - from,
{
    if from < 0 || from >= params.len() {
        Some(Seq::empty())
    } else {
        match bound_query(params[from], query) {
            BoundView::Bound(v) => match query_values_from(params, query, from + 1) {
                None => None,
                Some(rest) => if params[from] is Flag {
                    Some(rest)
                } else {
                    Some(seq![v] + rest)
                },
            },
            _ => None,
        }
    }
}

/// The values of the typed query parameters, in order.
pub open spec fn query_values(params: Seq<QueryParamView>, query: Seq<FieldView>) -> Option<
    Seq<ValueView>,
> {
    query_values_from(params, query, 0)
}

/// A query parameter that cannot be bound leaves the whole query unbound: a
/// flag or a required parameter that the query lacks, a value that is not
/// of its parameter's type.
pub proof fn unbound_query_param_forwards(
    params: Seq<QueryParamView>,
    query: Seq<FieldView>,
    from: int,
    k: int,
)
    requires
        0 <= from <= k < params.len(),
        bound_query(params[k], query) !is Bound,
    ensures
        query_values_from(params, query, from) is None,
    decreases k - from,
{
    if from < k {
        unbound_query_param_forwards(params, query, from + 1, k);
    }
}

/// A parameter from position `from` on claims the key.
pub open spec fn claims(params: Seq<QueryParamView>, key: Seq<char>, from: int) -> bool
    decreases params.len() - from,
{
    if from < 0 || from >= params.len() {
        false
    } else {
        params[from].key() == key || claims(params, key, from + 1)
    }
}

/// The fields of the query from position `from` on whose keys no parameter
/// claims.
pub open spec fn unclaimed_from(query: Seq<FieldView>, params: Seq<QueryParamView>, from: int)
    -> Seq<FieldView>
    decreases query.len() - from,
{
    if from < 0 || from >= query.len() {
        Seq::empty()
    } else if claims(params, query[from].key, 0) {
        unclaimed_from(query, params, from + 1)
    } else {
        seq![query[from]] + unclaimed_from(query, params, from + 1)
    }
}

/// The record of the unclaimed query keys where the route declares one:
/// `Some(None)` where it declares none, `None` where the keys do not make a
/// record of the schema under the strict policy.
pub open spec fn bundle_record(spec: QuerySpecView, query: Seq<FieldView>) -> Option<
    Option<Seq<EntryView>>,
> {
    match spec.bundle {
        None => Some(None),
        Some(schema) => match decoded_record(
            unclaimed_from(query, spec.params, 0),
            schema,
            Policy::Strict,
        ) {
            Ok(record) => Some(Some(record)),
            Err(_) => None,
        },
    }
}

/// What binding a route to a request comes to: the bound values, or `None`
/// where the route forwards. It forwards where the path has not the shape of
/// the pattern, or a parameter of the path or of the query cannot be bound,
/// or the unclaimed keys do not make the declared record.
pub open spec fn binding_of(segs: Seq<SegmentView>, spec: QuerySpecView, ctx: RequestView)
    -> Option<BoundValuesView> {
    if !shape_accepts(segs, ctx.path) {
        None
    } else {
        match path_values(segs, ctx.path) {
            None => None,
            Some(path) => match query_values(spec.params, ctx.query) {
                None => None,
                Some(query) => match bundle_record(spec, ctx.query) {
                    None => None,
                    Some(bundle) => Some(BoundValuesView { path, query, bundle }),
                },
            },
        }
    }
}

/// Binds one path segment to a parameter of type `ty`.
pub fn bind_segment(ty: ParamType, piece: &Piece) -> (bound: BoundValue)
    ensures
        bound@ == bound_segment(ty, piece@),
{
    let value = read_field(ty.base, piece);
    match value {
        Some(v) => BoundValue::Bound(v),
        None => match ty.mode {
            Mode::Strict => BoundValue::TypeMismatch(piece.raw.clone()),
            Mode::Optional => BoundValue::Bound(Value::Empty),
            Mode::Fallible => BoundValue::Bound(Value::Rejected(piece.raw.clone())),
        },
    }
}

fn is_traversal(text: &str) -> (t: bool)
    ensures
        t == traverses(text@),
{
    if same_text(text, "..") {
        return true;
    }
    let chars = chars_of(text);
    let at = find(&chars, '/');
    proof {
        if at < chars.len() {
            assert(text@[at as int] == '/');
        }
    }
    at < chars.len()
}

/// Captures the segments of `path` from position `from` on as one path.
pub fn capture(path: &Vec<Piece>, from: usize) -> (text: Option<String>)
    ensures
        crate::decode::text_of(text) == captured(path.deep_view(), from as int),
{
    let mut so_far = String::new();
    let mut i: usize = from;
    while i < path.len()
        invariant
            from <= i,
            captured(path.deep_view(), from as int) == captured_from(
                path.deep_view(),
                i as int,
                so_far@,
            ),
        decreases path.len() - i,
    {
        proof {
            assert(path.deep_view()[i as int] == path[i as int]@);
        }
        match &path[i].decoded {
            None => {
                return None;
            },
            Some(d) => {
                if is_traversal(d.as_str()) {
                    return None;
                }
                let skip = d.as_str().unicode_len() == 0 || same_text(d.as_str(), ".");
                if !skip {
                    if so_far.as_str().unicode_len() != 0 {
                        proof {
                            reveal_strlit("/");
                            assert("/"@ =~= seq!['/']);
                        }
                        so_far.append("/");
                    }
                    so_far.append(d.as_str());
                    proof {
                        assert(Seq::<char>::empty() + d@ =~= d@);
                    }
                }
            },
        }
        i = i + 1;
    }
    Some(so_far)
}

/// Binds the path parameters of a pattern to the segments of a path.
pub fn bind_path(pattern: &PathPattern, path: &Vec<Piece>) -> (values: Option<Vec<Value>>)
    ensures
        values.deep_view() == path_values(pattern@, path.deep_view()),
{
    let segs = pattern.segments();
    let mut values: Vec<Value> = Vec::new();
    let mut i: usize = 0;
    proof {
        assert(values.deep_view() =~= Seq::<ValueView>::empty());
        match path_values_from(pattern@, path.deep_view(), 0) {
            Some(rest) => {
                assert(Seq::<ValueView>::empty() + rest =~= rest);
            },
            None => {},
        }
    }
    while i < segs.len()
        invariant
            i <= segs.len(),
            segs.deep_view() == pattern@,
            path_values(pattern@, path.deep_view()) == match path_values_from(
                pattern@,
                path.deep_view(),
                i as int,
            ) {
                Some(rest) => Some(values.deep_view() + rest),
                None => None,
            },
        decreases segs.len() - i,
    {
        proof {
            assert(pattern@[i as int] == segs[i as int]@);
            if i < path.len() {
                assert(path.deep_view()[i as int] == path[i as int]@);
            }
        }
        let ghost before = values.deep_view();
        match &segs[i] {
            Segment::Static(_) => {
                proof {
                    match path_values_from(pattern@, path.deep_view(), i + 1) {
                        Some(rest) => {
                            assert(Seq::<ValueView>::empty() + rest =~= rest);
                        },
                        None => {},
                    }
                }
            },
            Segment::Dynamic(_, ty) => {
                if i >= path.len() {
                    return None;
                }
                match bind_segment(*ty, &path[i]) {
                    BoundValue::Bound(v) => {
                        let ghost model = v@;
                        values.push(v);
                        proof {
                            assert(values.deep_view() =~= before.push(model));
                            match path_values_from(pattern@, path.deep_view(), i + 1) {
                                Some(rest) => {
                                    assert(before + (seq![model] + rest) =~= before.push(model)
                                        + rest);
                                },
                                None => {},
                            }
                        }
                    },
                    _ => {
                        return None;
                    },
                }
            },
            Segment::Multi(_) => {
                match capture(path, i) {
                    Some(text) => {
                        let ghost model = ValueView::Text(text@);
                        values.push(Value::Text(text));
                        proof {
                            assert(values.deep_view() =~= before.push(model));
                            match path_values_from(pattern@, path.deep_view(), i + 1) {
                                Some(rest) => {
                                    assert(before + (seq![model] + rest) =~= before.push(model)
                                        + rest);
                                },
                                None => {},
                            }
                        }
                    },
                    None => {
                        return None;
                    },
                }
            },
        }
        i = i + 1;
    }
    proof {
        assert(values.deep_view() + Seq::<ValueView>::empty() =~= values.deep_view());
    }
    Some(values)
}

fn find_value<'a>(query: &'a Vec<Field>, key: &str) -> (found: Option<&'a Piece>)
    ensures
        found.deep_view() == first_value(query.deep_view(), key@, 0),
{
    let mut i: usize = 0;
    while i < query.len()
        invariant
            i <= query.len(),
            first_value(query.deep_view(), key@, 0) == first_value(
                query.deep_view(),
                key@,
                i as int,
            ),
        decreases query.len() - i,
    {
        proof {
            assert(query.deep_view()[i as int] == query[i as int]@);
        }
        if same_text(query[i].key.as_str(), key) {
            return Some(&query[i].value);
        }
        i = i + 1;
    }
    None
}

/// Binds one query parameter to the fields of a query.
pub fn bind_query_param(param: &QueryParam, query: &Vec<Field>) -> (bound: BoundValue)
    ensures
        bound@ == bound_query(param@, query.deep_view()),
{
    match param {
        QueryParam::Flag(name) => match find_value(query, name.as_str()) {
            Some(_) => BoundValue::Bound(Value::Empty),
            None => BoundValue::Missing,
        },
        QueryParam::Typed(name, base, required) => match find_value(query, name.as_str()) {
            None => {
                if *required {
                    BoundValue::Missing
                } else {
                    BoundValue::Bound(Value::Empty)
                }
            },
            Some(piece) => {
                match read_field(*base, piece) {
                    Some(v) => BoundValue::Bound(v),
                    None => BoundValue::TypeMismatch(piece.raw.clone()),
                }
            },
        },
    }
}

/// Binds the query parameters of a route to the fields of a query.
pub fn bind_query(params: &Vec<QueryParam>, query: &Vec<Field>) -> (values: Option<Vec<Value>>)
    ensures
        values.deep_view() == query_values(params.deep_view(), query.deep_view()),
{
    let mut values: Vec<Value> = Vec::new();
    let mut i: usize = 0;
    proof {
        assert(values.deep_view() =~= Seq::<ValueView>::empty());
        match query_values_from(params.deep_view(), query.deep_view(), 0) {
            Some(rest) => {
                assert(Seq::<ValueView>::empty() + rest =~= rest);
            },
            None => {},
        }
    }
    while i < params.len()
        invariant
            i <= params.len(),
            query_values(params.deep_view(), query.deep_view()) == match query_values_from(
                params.deep_view(),
                query.deep_view(),
                i as int,
            ) {
                Some(rest) => Some(values.deep_view() + rest),
                None => None,
            },
        decreases params.len() - i,
    {
        proof {
            assert(params.deep_view()[i as int] == params[i as int]@);
        }
        let ghost before = values.deep_view();
        let is_flag = match &params[i] {
            QueryParam::Flag(_) => true,
            QueryParam::Typed(_, _, _) => false,
        };
        match bind_query_param(&params[i], query) {
            BoundValue::Bound(v) => {
                if !is_flag {
                    let ghost model = v@;
                    values.push(v);
                    proof {
                        assert(values.deep_view() =~= before.push(model));
                        match query_values_from(params.deep_view(), query.deep_view(), i + 1) {
                            Some(rest) => {
                                assert(before + (seq![model] + rest) =~= before.push(model) + rest);
                            },
                            None => {},
                        }
                    }
                }
            },
            _ => {
                return None;
            },
        }
        i = i + 1;
    }
    proof {
        assert(values.deep_view() + Seq::<ValueView>::empty() =~= values.deep_view());
    }
    Some(values)
}

fn is_claimed(params: &Vec<QueryParam>, key: &str) -> (claimed: bool)
    ensures
        claimed == claims(params.deep_view(), key@, 0),
{
    let mut i: usize = 0;
    while i < params.len()
        invariant
            i <= params.len(),
            claims(params.deep_view(), key@, 0) == claims(params.deep_view(), key@, i as int),
        decreases params.len() - i,
    {
        proof {
            assert(params.deep_view()[i as int] == params[i as int]@);
        }
        let name = match &params[i] {
            QueryParam::Flag(name) => name,
            QueryParam::Typed(name, _, _) => name,
        };
        if same_text(name.as_str(), key) {
            return true;
        }
        i = i + 1;
    }
    false
}

/// A copy of a field.
fn copy_field(field: &Field) -> (copy: Field)
    ensures
        copy@ == field@,
{
    let decoded = match &field.value.decoded {
        Some(text) => Some(text.clone()),
        None => None,
    };
    Field { key: field.key.clone(), value: Piece { raw: field.value.raw.clone(), decoded } }
}

/// The fields of the query whose keys no parameter claims.
pub fn unclaimed(query: &Vec<Field>, params: &Vec<QueryParam>) -> (left: Vec<Field>)
    ensures
        left.deep_view() == unclaimed_from(query.deep_view(), params.deep_view(), 0),
{
    let mut left: Vec<Field> = Vec::new();
    let mut i: usize = 0;
    proof {
        assert(left.deep_view() =~= Seq::<FieldView>::empty());
        assert(Seq::<FieldView>::empty() + unclaimed_from(
            query.deep_view(),
            params.deep_view(),
            0,
        ) =~= unclaimed_from(query.deep_view(), params.deep_view(), 0));
    }
    while i < query.len()
        invariant
            i <= query.len(),
            unclaimed_from(query.deep_view(), params.deep_view(), 0) == left.deep_view()
                + unclaimed_from(query.deep_view(), params.deep_view(), i as int),
        decreases query.len() - i,
    {
        proof {
            assert(query.deep_view()[i as int] == query[i as int]@);
        }
        let ghost before = left.deep_view();
        let ghost rest = unclaimed_from(query.deep_view(), params.deep_view(), i + 1);
        if !is_claimed(params, query[i].key.as_str()) {
            let copy = copy_field(&query[i]);
            let ghost model = copy@;
            left.push(copy);
            proof {
                assert(left.deep_view() =~= before.push(model));
                assert(before + (seq![model] + rest) =~= before.push(model) + rest);
            }
        }
        i = i + 1;
    }
    proof {
        assert(left.deep_view() + Seq::<FieldView>::empty() =~= left.deep_view());
    }
    left
}

/// Binds the path and the query of a request to what a route declares.
pub fn bind(pattern: &PathPattern, spec: &QuerySpec, ctx: &RequestContext) -> (bound: Option<
    BoundValues,
>)
    ensures
        bound.deep_view() == binding_of(pattern@, spec@, ctx@),
{
    if !pattern.match_shape(&ctx.path) {
        return None;
    }
    let path = match bind_path(pattern, &ctx.path) {
        Some(values) => values,
        None => {
            return None;
        },
    };
    let query = match bind_query(&spec.params, &ctx.query) {
        Some(values) => values,
        None => {
            return None;
        },
    };
    let bundle = match &spec.bundle {
        None => None,
        Some(schema) => {
            let left = unclaimed(&ctx.query, &spec.params);
            match decode(&left, schema, Policy::Strict) {
                Ok(record) => Some(record),
                Err(_) => {
                    return None;
                },
            }
        },
    };
    Some(BoundValues { path, query, bundle })
}

} // verus!
