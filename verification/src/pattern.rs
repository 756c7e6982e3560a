//! Path patterns: the declared path template of a route as a sequence of typed
//! segments, the shape of paths that it accepts, and its default rank.

use crate::request::{Piece, PieceView};
use crate::text::{chars_of, find, index_of, pieces, same_text, slice_of, split};
use crate::value::{BaseType, Mode, ParamType};
use vstd::prelude::*;
use vstd::string::*;

verus! {

/// One segment of a path pattern.
#[derive(Clone, Debug, PartialEq, Eq)]
pub enum Segment {
    /// A literal that the path must hold at this position.
    Static(String),
    /// A named parameter that captures one path segment.
    Dynamic(String, ParamType),
    /// A named parameter that captures all the path segments that remain.
    Multi(String),
}

/// The mathematical model of a [`Segment`].
pub enum SegmentView {
    Static(Seq<char>),
    Dynamic(Seq<char>, ParamType),
    Multi(Seq<char>),
}

impl DeepView for Segment {
    type V = SegmentView;

    open spec fn deep_view(&self) -> SegmentView {
        match *self {
            Segment::Static(lit) => SegmentView::Static(lit@),
            Segment::Dynamic(name, ty) => SegmentView::Dynamic(name@, ty),
            Segment::Multi(name) => SegmentView::Multi(name@),
        }
    }
}

impl View for Segment {
    type V = SegmentView;

    open spec fn view(&self) -> SegmentView {
        self.deep_view()
    }
}

/// Why a template is not a path pattern.
#[derive(Clone, Copy, Debug, PartialEq, Eq, Structural)]
pub enum InvalidPattern {
    /// A segment is neither a literal nor a well-written parameter.
    MalformedSegment,
    /// A multi-segment parameter is followed by another segment.
    MisplacedMultiSegment,
}

pub open spec fn is_name_char(c: char) -> bool {
    ||| ('a' <= c && c <= 'z')
    ||| ('A' <= c && c <= 'Z')
    ||| ('0' <= c && c <= '9')
    ||| c == '_'
}

/// A parameter's name: one or more letters, digits and underscores.
pub open spec fn is_name(s: Seq<char>) -> bool {
    s.len() > 0 && forall|i: int| 0 <= i < s.len() ==> is_name_char(#[trigger] s[i])
}

/// The base type that a type name stands for.
pub open spec fn base_of(t: Seq<char>) -> Option<BaseType> {
    if t == "string"@ {
        Some(BaseType::Text)
    } else if t == "bool"@ {
        Some(BaseType::Bool)
    } else if t == "u8"@ {
        Some(BaseType::U8)
    } else if t == "uint"@ {
        Some(BaseType::U64)
    } else if t == "i32"@ {
        Some(BaseType::I32)
    } else if t == "int"@ {
        Some(BaseType::I64)
    } else if t == "raw"@ {
        Some(BaseType::Raw)
    } else {
        None
    }
}

/// What follows `word` in `t`, where `t` begins with `word`.
pub open spec fn without_prefix(t: Seq<char>, word: Seq<char>) -> Option<Seq<char>> {
    if word.len() <= t.len() && t.subrange(0, word.len() as int) == word {
        Some(t.skip(word.len() as int))
    } else {
        None
    }
}

pub open spec fn with_mode(base: Option<BaseType>, mode: Mode) -> Option<ParamType> {
    match base {
        Some(b) => Some(ParamType { base: b, mode }),
        None => None,
    }
}

/// The parameter type that a type annotation stands for: a base type's name,
/// alone or after `optional-` or `result-`.
pub open spec fn type_of(t: Seq<char>) -> Option<ParamType> {
    match without_prefix(t, "optional-"@) {
        Some(rest) => with_mode(base_of(rest), Mode::Optional),
        None => match without_prefix(t, "result-"@) {
            Some(rest) => with_mode(base_of(rest), Mode::Fallible),
            None => with_mode(base_of(t), Mode::Strict),
        },
    }
}

/// The parameter that the text between `<` and `>` declares: `name..`,
/// `name` or `name:type`.
pub open spec fn capture_of(inner: Seq<char>) -> Option<SegmentView> {
    if inner.len() >= 2 && inner[inner.len() - 1] == '.' && inner[inner.len() - 2] == '.' {
        let name = inner.take(inner.len() - 2);
        if is_name(name) {
            Some(SegmentView::Multi(name))
        } else {
            None
        }
    } else {
        let colon = index_of(inner, ':');
        let name = inner.take(colon);
        if !is_name(name) {
            None
        } else if colon == inner.len() {
            Some(SegmentView::Dynamic(name, ParamType { base: BaseType::Text, mode: Mode::Strict }))
        } else {
            match type_of(inner.skip(colon + 1)) {
                Some(ty) => Some(SegmentView::Dynamic(name, ty)),
                None => None,
            }
        }
    }
}

/// The segment that one piece of a template declares.
pub open spec fn segment_of(piece: Seq<char>) -> Option<SegmentView> {
    if piece.len() >= 2 && piece[0] == '<' && piece[piece.len() - 1] == '>' {
        capture_of(piece.subrange(1, piece.len() - 1))
    } else if piece.contains('<') || piece.contains('>') {
        None
    } else {
        Some(SegmentView::Static(piece))
    }
}

/// The segments that the pieces of a template declare, or the fault of the
/// first piece that has one.
pub open spec fn segments_of(ps: Seq<Seq<char>>) -> Result<Seq<SegmentView>, InvalidPattern>
    decreases ps.len(),
{
    if ps.len() == 0 {
        Ok(Seq::empty())
    } else {
        match segments_of(ps.drop_last()) {
            Err(e) => Err(e),
            Ok(front) => match segment_of(ps.last()) {
                None => Err(InvalidPattern::MalformedSegment),
                Some(seg) => if front.len() > 0 && front.last() is Multi {
                    Err(InvalidPattern::MisplacedMultiSegment)
                } else {
                    Ok(front.push(seg))
                },
            },
        }
    }
}

/// The pattern that a template declares: its pieces between `/`, each read
/// as a segment.
pub open spec fn pattern_of(template: Seq<char>) -> Result<Seq<SegmentView>, InvalidPattern> {
    segments_of(pieces(template, '/'))
}

/// At most one multi-segment parameter, and only as the last segment.
pub open spec fn well_formed(segs: Seq<SegmentView>) -> bool {
    forall|i: int| 0 <= i < segs.len() && #[trigger] segs[i] is Multi ==> i == segs.len() - 1
}

pub open spec fn has_multi(segs: Seq<SegmentView>) -> bool {
    segs.len() > 0 && segs.last() is Multi
}

/// The number of segments that each take one path segment.
pub open spec fn fixed_len(segs: Seq<SegmentView>) -> int {
    if has_multi(segs) {
        segs.len() - 1
    } else {
        segs.len() as int
    }
}

/// A path has the shape of a pattern: its literals stand where the pattern
/// has them, and the number of its segments fits.
pub open spec fn shape_accepts(segs: Seq<SegmentView>, path: Seq<PieceView>) -> bool {
    &&& if has_multi(segs) {
        path.len() >= fixed_len(segs)
    } else {
        path.len() == fixed_len(segs)
    }
    &&& forall|i: int|
        0 <= i < fixed_len(segs) ==> (#[trigger] segs[i] matches SegmentView::Static(lit)
            ==> path[i].raw == lit)
}

/// Two segments take the same path segments.
pub open spec fn alike(a: SegmentView, b: SegmentView) -> bool {
    match (a, b) {
        (SegmentView::Static(x), SegmentView::Static(y)) => x == y,
        (SegmentView::Dynamic(_, _), SegmentView::Dynamic(_, _)) => true,
        (SegmentView::Multi(_), SegmentView::Multi(_)) => true,
        _ => false,
    }
}

/// Two patterns differ at most in the names and types of their parameters.
pub open spec fn same_shape(a: Seq<SegmentView>, b: Seq<SegmentView>) -> bool {
    &&& a.len() == b.len()
    &&& forall|i: int| 0 <= i < a.len() ==> alike(#[trigger] a[i], b[i])
}

/// Patterns of the same shape accept the same paths.
pub proof fn lemma_same_shape_accepts(
    a: Seq<SegmentView>,
    b: Seq<SegmentView>,
    path: Seq<PieceView>,
)
    requires
        same_shape(a, b),
    ensures
        shape_accepts(a, path) == shape_accepts(b, path),
{
    if a.len() > 0 {
        assert(alike(a[a.len() - 1], b[a.len() - 1]));
    }
    assert(has_multi(a) == has_multi(b));
    if shape_accepts(a, path) {
        assert forall|i: int| 0 <= i < fixed_len(b) implies (#[trigger] b[i] matches SegmentView::Static(
            lit,
        ) ==> path[i].raw == lit) by {
            assert(alike(a[i], b[i]));
        }
    }
    if shape_accepts(b, path) {
        assert forall|i: int| 0 <= i < fixed_len(a) implies (#[trigger] a[i] matches SegmentView::Static(
            lit,
        ) ==> path[i].raw == lit) by {
            assert(alike(a[i], b[i]));
        }
    }
}

/// The number of literal segments.
pub open spec fn static_count(segs: Seq<SegmentView>) -> nat
    decreases segs.len(),
{
    if segs.len() == 0 {
        0
    } else if segs.last() is Static {
        static_count(segs.drop_last()) + 1
    } else {
        static_count(segs.drop_last())
    }
}

/// The number of parameters, single and multi-segment.
pub open spec fn capture_count(segs: Seq<SegmentView>) -> int {
    segs.len() - static_count(segs)
}

/// `x`, or the bound of `i64` that it lies beyond.
pub open spec fn saturated(x: int) -> i64 {
    if x > i64::MAX {
        i64::MAX
    } else if x < i64::MIN {
        i64::MIN
    } else {
        x as i64
    }
}

/// The rank of a route that declares none: the number of its parameters less
/// the number of its literals, so that a more specific pattern is tried
/// earlier.
pub open spec fn default_rank_of(segs: Seq<SegmentView>) -> i64 {
    saturated(capture_count(segs) - static_count(segs))
}

pub proof fn lemma_static_count_bound(segs: Seq<SegmentView>)
    ensures
        static_count(segs) <= segs.len(),
    decreases segs.len(),
{
    if segs.len() > 0 {
        lemma_static_count_bound(segs.drop_last());
    }
}

/// A pattern with no more parameters and no fewer literals than another has
/// no higher a default rank, and a lower one where it differs in either
/// number and both patterns are short enough for their ranks not to saturate.
pub proof fn default_rank_orders_by_specificity(p: Seq<SegmentView>, q: Seq<SegmentView>)
    requires
        capture_count(p) <= capture_count(q),
        static_count(p) >= static_count(q),
    ensures
        default_rank_of(p) <= default_rank_of(q),
        (capture_count(p) < capture_count(q) || static_count(p) > static_count(q)) && p.len()
            <= i64::MAX && q.len() <= i64::MAX ==> default_rank_of(p) < default_rank_of(q),
{
    lemma_static_count_bound(p);
    lemma_static_count_bound(q);
}

/// The declared path template of a route.
#[derive(Debug, PartialEq, Eq)]
pub struct PathPattern {
    segments: Vec<Segment>,
}

impl DeepView for PathPattern {
    type V = Seq<SegmentView>;

    closed spec fn deep_view(&self) -> Seq<SegmentView> {
        self.segments.deep_view()
    }
}

impl View for PathPattern {
    type V = Seq<SegmentView>;

    open spec fn view(&self) -> Seq<SegmentView> {
        self.deep_view()
    }
}

/// Every segment takes one path segment: none is a multi-segment parameter.
pub open spec fn all_single(segs: Seq<SegmentView>) -> bool {
    forall|i: int| 0 <= i < segs.len() ==> !(#[trigger] segs[i] is Multi)
}

/// A pattern that is being put together segment by segment. It holds no
/// multi-segment parameter: one is added only as the pattern's last segment.
pub struct PatternBuilder {
    segments: Vec<Segment>,
}

impl View for PatternBuilder {
    type V = Seq<SegmentView>;

    closed spec fn view(&self) -> Seq<SegmentView> {
        self.segments.deep_view()
    }
}

fn is_name_text(chars: &Vec<char>, from: usize, to: usize) -> (ok: bool)
    requires
        from <= to <= chars.len(),
    ensures
        ok == is_name(chars@.subrange(from as int, to as int)),
{
    let ghost name = chars@.subrange(from as int, to as int);
    if from == to {
        return false;
    }
    let mut i: usize = from;
    while i < to
        invariant
            from <= i <= to <= chars.len(),
            name == chars@.subrange(from as int, to as int),
            forall|j: int| 0 <= j < i - from ==> is_name_char(#[trigger] name[j]),
        decreases to - i,
    {
        let c = chars[i];
        let ok = (c >= 'a' && c <= 'z') || (c >= 'A' && c <= 'Z') || (c >= '0' && c <= '9') || c
            == '_';
        if !ok {
            proof {
                assert(name[i - from] == c);
            }
            return false;
        }
        proof {
            assert(name[i - from] == c);
        }
        i = i + 1;
    }
    true
}

fn read_base(text: &str) -> (base: Option<BaseType>)
    ensures
        base == base_of(text@),
{
    if same_text(text, "string") {
        Some(BaseType::Text)
    } else if same_text(text, "bool") {
        Some(BaseType::Bool)
    } else if same_text(text, "u8") {
        Some(BaseType::U8)
    } else if same_text(text, "uint") {
        Some(BaseType::U64)
    } else if same_text(text, "i32") {
        Some(BaseType::I32)
    } else if same_text(text, "int") {
        Some(BaseType::I64)
    } else if same_text(text, "raw") {
        Some(BaseType::Raw)
    } else {
        None
    }
}

/// Takes `word` from the front of `text`, where `text` begins with it.
fn strip_prefix(text: &str, word: &str) -> (rest: Option<String>)
    ensures
        crate::decode::text_of(rest) == without_prefix(text@, word@),
{
    let n = word.unicode_len();
    let len = text.unicode_len();
    if n <= len {
        let head = slice_of(text, 0, n);
        if same_text(head.as_str(), word) {
            let rest = slice_of(text, n, len);
            proof {
                assert(text@.subrange(n as int, len as int) =~= text@.skip(n as int));
            }
            return Some(rest);
        }
    }
    None
}

fn read_type(text: &str) -> (ty: Option<ParamType>)
    ensures
        ty == type_of(text@),
{
    match strip_prefix(text, "optional-") {
        Some(rest) => match read_base(rest.as_str()) {
            Some(base) => Some(ParamType { base, mode: Mode::Optional }),
            None => None,
        },
        None => match strip_prefix(text, "result-") {
            Some(rest) => match read_base(rest.as_str()) {
                Some(base) => Some(ParamType { base, mode: Mode::Fallible }),
                None => None,
            },
            None => match read_base(text) {
                Some(base) => Some(ParamType { base, mode: Mode::Strict }),
                None => None,
            },
        },
    }
}

fn read_capture(inner: &str) -> (seg: Option<Segment>)
    ensures
        seg.deep_view() == capture_of(inner@),
{
    let chars = chars_of(inner);
    let len = chars.len();
    if len >= 2 && chars[len - 1] == '.' && chars[len - 2] == '.' {
        proof {
            assert(chars@.subrange(0, len - 2) =~= inner@.take(len - 2));
        }
        if is_name_text(&chars, 0, len - 2) {
            Some(Segment::Multi(slice_of(inner, 0, len - 2)))
        } else {
            None
        }
    } else {
        let colon = find(&chars, ':');
        proof {
            assert(chars@.subrange(0, colon as int) =~= inner@.take(colon as int));
        }
        if !is_name_text(&chars, 0, colon) {
            None
        } else if colon == len {
            Some(
                Segment::Dynamic(
                    slice_of(inner, 0, colon),
                    ParamType { base: BaseType::Text, mode: Mode::Strict },
                ),
            )
        } else {
            let annotation = slice_of(inner, colon + 1, len);
            proof {
                assert(inner@.subrange(colon + 1, len as int) =~= inner@.skip(colon + 1));
            }
            match read_type(annotation.as_str()) {
                Some(ty) => Some(Segment::Dynamic(slice_of(inner, 0, colon), ty)),
                None => None,
            }
        }
    }
}

/// Reads one piece of a template as a segment.
pub fn read_segment(piece: &str) -> (seg: Option<Segment>)
    ensures
        seg.deep_view() == segment_of(piece@),
{
    let chars = chars_of(piece);
    let len = chars.len();
    if len >= 2 && chars[0] == '<' && chars[len - 1] == '>' {
        let inner = slice_of(piece, 1, len - 1);
        read_capture(inner.as_str())
    } else {
        let open = find(&chars, '<');
        let close = find(&chars, '>');
        if open < len || close < len {
            None
        } else {
            Some(Segment::Static(piece.to_owned()))
        }
    }
}

impl PatternBuilder {
    #[verifier::type_invariant]
    spec fn inv(self) -> bool {
        all_single(self.segments.deep_view())
    }

    /// The builder of a pattern, so far without segments.
    pub fn new() -> (builder: PatternBuilder)
        ensures
            builder@ == Seq::<SegmentView>::empty(),
    {
        let segments: Vec<Segment> = Vec::new();
        proof {
            assert(segments.deep_view() =~= Seq::<SegmentView>::empty());
        }
        PatternBuilder { segments }
    }

    /// Adds a literal.
    pub fn literal(self, text: &str) -> (builder: PatternBuilder)
        ensures
            builder@ == self@.push(SegmentView::Static(text@)),
    {
        proof {
            use_type_invariant(&self);
        }
        let mut segments = self.segments;
        let ghost before = segments.deep_view();
        segments.push(Segment::Static(text.to_owned()));
        proof {
            assert(segments.deep_view() =~= before.push(SegmentView::Static(text@)));
        }
        PatternBuilder { segments }
    }

    /// Adds a parameter that captures one path segment.
    pub fn param(self, name: &str, ty: ParamType) -> (builder: PatternBuilder)
        ensures
            builder@ == self@.push(SegmentView::Dynamic(name@, ty)),
    {
        proof {
            use_type_invariant(&self);
        }
        let mut segments = self.segments;
        let ghost before = segments.deep_view();
        segments.push(Segment::Dynamic(name.to_owned(), ty));
        proof {
            assert(segments.deep_view() =~= before.push(SegmentView::Dynamic(name@, ty)));
        }
        PatternBuilder { segments }
    }

    /// The pattern of the segments that were added.
    pub fn end(self) -> (pattern: PathPattern)
        ensures
            pattern@ == self@,
    {
        proof {
            use_type_invariant(&self);
        }
        PathPattern { segments: self.segments }
    }

    /// The pattern of the segments that were added and, after them, a
    /// parameter that captures all the path segments that remain.
    pub fn rest(self, name: &str) -> (pattern: PathPattern)
        ensures
            pattern@ == self@.push(SegmentView::Multi(name@)),
    {
        proof {
            use_type_invariant(&self);
        }
        let mut segments = self.segments;
        let ghost before = segments.deep_view();
        segments.push(Segment::Multi(name.to_owned()));
        proof {
            assert(segments.deep_view() =~= before.push(SegmentView::Multi(name@)));
        }
        PathPattern { segments }
    }
}

impl PathPattern {
    #[verifier::type_invariant]
    spec fn inv(self) -> bool {
        well_formed(self.segments.deep_view())
    }

    /// Reads a template such as `/items/<id:int>` or `/files/<rest..>`: its
    /// pieces between `/`, each a literal, `<name>`, `<name:type>` or
    /// `<name..>`. A piece that is none of these makes the template
    /// malformed; a `<name..>` that is not the last piece is misplaced. The
    /// first piece at fault decides the error.
    pub fn parse(template: &str) -> (parsed: Result<PathPattern, InvalidPattern>)
        ensures
            match parsed {
                Ok(p) => pattern_of(template@) == Ok::<Seq<SegmentView>, InvalidPattern>(p@)
                    && well_formed(p@),
                Err(e) => pattern_of(template@) == Err::<Seq<SegmentView>, InvalidPattern>(e),
            },
    {
        let parts = split(template, '/');
        let mut segments: Vec<Segment> = Vec::new();
        let mut i: usize = 0;
        proof {
            assert(parts.deep_view().take(0) =~= Seq::<Seq<char>>::empty());
            assert(segments.deep_view() =~= Seq::<SegmentView>::empty());
        }
        while i < parts.len()
            invariant
                i <= parts.len(),
                parts.deep_view() == pieces(template@, '/'),
                segments_of(parts.deep_view().take(i as int)) == Ok::<
                    Seq<SegmentView>,
                    InvalidPattern,
                >(segments.deep_view()),
                well_formed(segments.deep_view()),
            decreases parts.len() - i,
        {
            let ghost seen = parts.deep_view().take(i as int);
            let ghost next = parts.deep_view().take(i + 1);
            let ghost front = segments.deep_view();
            proof {
                assert(next.drop_last() =~= seen);
                assert(next.last() == parts[i as int]@);
            }
            let misplaced = segments.len() > 0 && matches!(
                segments[segments.len() - 1],
                Segment::Multi(_)
            );
            match read_segment(parts[i].as_str()) {
                None => {
                    proof {
                        lemma_fault_stays(parts.deep_view(), i + 1);
                    }
                    return Err(InvalidPattern::MalformedSegment);
                },
                Some(seg) => {
                    if misplaced {
                        proof {
                            assert(front.last() == segments[segments.len() - 1].deep_view());
                            lemma_fault_stays(parts.deep_view(), i + 1);
                        }
                        return Err(InvalidPattern::MisplacedMultiSegment);
                    }
                    segments.push(seg);
                    proof {
                        assert(segments.deep_view() =~= front.push(seg.deep_view()));
                        assert forall|j: int|
                            0 <= j < segments.deep_view().len() && #[trigger] segments.deep_view()[j] is Multi implies j
                            == segments.deep_view().len() - 1 by {
                            if j < front.len() {
                                assert(front[j] is Multi);
                            }
                        }
                    }
                },
            }
            i = i + 1;
        }
        proof {
            assert(parts.deep_view().take(i as int) =~= parts.deep_view());
        }
        Ok(PathPattern { segments })
    }

    /// The segments, in order.
    pub fn segments(&self) -> (segs: &Vec<Segment>)
        ensures
            segs.deep_view() == self@,
            well_formed(self@),
    {
        proof {
            use_type_invariant(self);
        }
        &self.segments
    }

    /// Whether the last segment captures all that remains of a path.
    pub fn ends_in_multi(&self) -> (multi: bool)
        ensures
            multi == has_multi(self@),
    {
        let n = self.segments.len();
        proof {
            if n > 0 {
                assert(self@.last() == self.segments[n - 1].deep_view());
            }
        }
        n > 0 && matches!(self.segments[n - 1], Segment::Multi(_))
    }

    /// Whether `path` has the shape of this pattern.
    pub fn match_shape(&self, path: &Vec<Piece>) -> (ok: bool)
        ensures
            ok == shape_accepts(self@, path.deep_view()),
    {
        let multi = self.ends_in_multi();
        let fixed = if multi {
            self.segments.len() - 1
        } else {
            self.segments.len()
        };
        if multi {
            if path.len() < fixed {
                return false;
            }
        } else {
            if path.len() != fixed {
                return false;
            }
        }
        let mut i: usize = 0;
        while i < fixed
            invariant
                i <= fixed <= path.len(),
                fixed == fixed_len(self@),
                fixed <= self.segments.len(),
                forall|j: int|
                    0 <= j < i ==> (#[trigger] self@[j] matches SegmentView::Static(lit)
                        ==> path.deep_view()[j].raw == lit),
            decreases fixed - i,
        {
            proof {
                assert(self@[i as int] == self.segments[i as int].deep_view());
                assert(path.deep_view()[i as int] == path[i as int]@);
            }
            match &self.segments[i] {
                Segment::Static(lit) => {
                    if !same_text(lit.as_str(), path[i].raw.as_str()) {
                        return false;
                    }
                },
                _ => {},
            }
            i = i + 1;
        }
        true
    }

    /// Whether `other` differs at most in the names and types of its parameters.
    pub fn same_shape(&self, other: &PathPattern) -> (same: bool)
        ensures
            same == same_shape(self@, other@),
    {
        if self.segments.len() != other.segments.len() {
            return false;
        }
        let mut i: usize = 0;
        while i < self.segments.len()
            invariant
                i <= self.segments.len(),
                self.segments.len() == other.segments.len(),
                forall|j: int| 0 <= j < i ==> alike(#[trigger] self@[j], other@[j]),
            decreases self.segments.len() - i,
        {
            proof {
                assert(self@[i as int] == self.segments[i as int].deep_view());
                assert(other@[i as int] == other.segments[i as int].deep_view());
            }
            let same = match (&self.segments[i], &other.segments[i]) {
                (Segment::Static(x), Segment::Static(y)) => same_text(x.as_str(), y.as_str()),
                (Segment::Dynamic(_, _), Segment::Dynamic(_, _)) => true,
                (Segment::Multi(_), Segment::Multi(_)) => true,
                _ => false,
            };
            if !same {
                return false;
            }
            i = i + 1;
        }
        true
    }

    /// The rank that a route with this pattern has where it declares none.
    pub fn default_rank(&self) -> (rank: i64)
        ensures
            rank == default_rank_of(self@),
    {
        let mut statics: usize = 0;
        let mut i: usize = 0;
        proof {
            assert(self@.take(0) =~= Seq::<SegmentView>::empty());
        }
        while i < self.segments.len()
            invariant
                i <= self.segments.len(),
                statics == static_count(self@.take(i as int)),
                statics <= i,
            decreases self.segments.len() - i,
        {
            proof {
                assert(self@.take(i + 1).drop_last() =~= self@.take(i as int));
                assert(self@.take(i + 1).last() == self.segments[i as int].deep_view());
            }
            match &self.segments[i] {
                Segment::Static(_) => {
                    statics = statics + 1;
                },
                _ => {},
            }
            i = i + 1;
        }
        proof {
            assert(self@.take(i as int) =~= self@);
        }
        let captures = self.segments.len() - statics;
        if captures >= statics {
            let d: u64 = (captures - statics) as u64;
            if d > 0x7fff_ffff_ffff_ffffu64 {
                i64::MAX
            } else {
                d as i64
            }
        } else {
            let d: u64 = (statics - captures) as u64;
            if d > 0x7fff_ffff_ffff_ffffu64 {
                i64::MIN
            } else {
                -(d as i64)
            }
        }
    }
}

/// Once a leading part of the pieces is at fault, so is the whole, with the
/// same fault.
proof fn lemma_fault_stays(ps: Seq<Seq<char>>, k: int)
    requires
        0 <= k <= ps.len(),
        segments_of(ps.take(k)) is Err,
    ensures
        segments_of(ps) == segments_of(ps.take(k)),
    decreases ps.len() - k,
{
    if k == ps.len() {
        assert(ps.take(k) =~= ps);
    } else {
        assert(ps.take(k + 1).drop_last() =~= ps.take(k));
        lemma_fault_stays(ps, k + 1);
    }
}

} // verus!
