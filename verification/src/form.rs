//! Decoding the fields of a form body or of a query string into a typed
//! record, under a strict or a lenient policy.

use crate::request::{fields_of, parse_fields, Field, FieldView, Piece, PieceView};
use crate::text::same_text;
use crate::value::{coerce, coerced, BaseType, Value, ValueView};
use vstd::prelude::*;
use vstd::string::*;

verus! {

/// What becomes of an input field that the schema does not know.
#[derive(Clone, Copy, Debug, PartialEq, Eq, Structural)]
pub enum Policy {
    /// It is an error.
    Strict,
    /// It is ignored.
    Lenient,
}

/// One field of a record schema.
#[derive(Clone, Debug, PartialEq, Eq)]
pub struct FieldSpec {
    /// The field's name in the record.
    pub name: String,
    /// The key under which the input holds it, where that is not its name.
    pub alias: Option<String>,
    pub base: BaseType,
}

/// The mathematical model of a [`FieldSpec`].
pub struct FieldSpecView {
    pub name: Seq<char>,
    pub alias: Option<Seq<char>>,
    pub base: BaseType,
}

impl DeepView for FieldSpec {
    type V = FieldSpecView;

    open spec fn deep_view(&self) -> FieldSpecView {
        FieldSpecView {
            name: self.name@,
            alias: crate::decode::text_of(self.alias),
            base: self.base,
        }
    }
}

impl View for FieldSpec {
    type V = FieldSpecView;

    open spec fn view(&self) -> FieldSpecView {
        self.deep_view()
    }
}

impl FieldSpecView {
    /// The key under which the input holds the field.
    pub open spec fn wire_name(self) -> Seq<char> {
        match self.alias {
            Some(a) => a,
            None => self.name,
        }
    }
}

impl FieldSpec {
    /// A field that the input holds under its own name.
    pub fn new(name: &str, base: BaseType) -> (spec: FieldSpec)
        ensures
            spec@ == (FieldSpecView { name: name@, alias: None, base }),
    {
        FieldSpec { name: name.to_owned(), alias: None, base }
    }

    /// A field that the input holds under the key `alias`.
    pub fn renamed(name: &str, alias: &str, base: BaseType) -> (spec: FieldSpec)
        ensures
            spec@ == (FieldSpecView { name: name@, alias: Some(alias@), base }),
    {
        FieldSpec { name: name.to_owned(), alias: Some(alias.to_owned()), base }
    }

    /// The key under which the input holds the field.
    pub fn wire_name(&self) -> (key: &str)
        ensures
            key@ == self@.wire_name(),
    {
        match &self.alias {
            Some(a) => a.as_str(),
            None => self.name.as_str(),
        }
    }
}

/// Why an input is not a record of the schema; each names the input key or
/// the schema field at fault.
#[derive(Clone, Debug, PartialEq, Eq)]
pub enum DecodeError {
    /// The input has no field for a field of the schema.
    MissingField(String),
    /// The input has a field that the schema does not know.
    UnknownField(String),
    /// The input holds a field more than once, or with a value that is not
    /// of the field's type.
    TypeMismatch(String),
}

/// The mathematical model of a [`DecodeError`].
pub enum DecodeErrorView {
    MissingField(Seq<char>),
    UnknownField(Seq<char>),
    TypeMismatch(Seq<char>),
}

impl DeepView for DecodeError {
    type V = DecodeErrorView;

    open spec fn deep_view(&self) -> DecodeErrorView {
        match *self {
            DecodeError::MissingField(n) => DecodeErrorView::MissingField(n@),
            DecodeError::UnknownField(n) => DecodeErrorView::UnknownField(n@),
            DecodeError::TypeMismatch(n) => DecodeErrorView::TypeMismatch(n@),
        }
    }
}

impl View for DecodeError {
    type V = DecodeErrorView;

    open spec fn view(&self) -> DecodeErrorView {
        self.deep_view()
    }
}

/// A field of a decoded record: the field's name in the record and its value.
#[derive(Clone, Debug, PartialEq, Eq)]
pub struct Entry {
    pub name: String,
    pub value: Value,
}

/// The mathematical model of an [`Entry`].
pub struct EntryView {
    pub name: Seq<char>,
    pub value: ValueView,
}

impl DeepView for Entry {
    type V = EntryView;

    open spec fn deep_view(&self) -> EntryView {
        EntryView { name: self.name@, value: self.value@ }
    }
}

impl View for Entry {
    type V = EntryView;

    open spec fn view(&self) -> EntryView {
        self.deep_view()
    }
}

/// The position of the first field of `schema` that the input holds under
/// `key`, or the length of `schema` where it has none.
pub open spec fn position_of(schema: Seq<FieldSpecView>, key: Seq<char>) -> int
    decreases schema.len(),
{
    if schema.len() == 0 || schema[0].wire_name() == key {
        0
    } else {
        1 + position_of(schema.skip(1), key)
    }
}

/// The schema has a field that the input holds under `key`.
pub open spec fn knows(schema: Seq<FieldSpecView>, key: Seq<char>) -> bool {
    position_of(schema, key) < schema.len()
}

/// `position_of` is the one position before which no field has the key and
/// at which the schema ends or a field has it.
pub proof fn lemma_position_of(schema: Seq<FieldSpecView>, key: Seq<char>, at: int)
    requires
        0 <= at <= schema.len(),
        forall|j: int| 0 <= j < at ==> schema[j].wire_name() != key,
        at == schema.len() || schema[at].wire_name() == key,
    ensures
        position_of(schema, key) == at,
    decreases schema.len(),
{
    if schema.len() == 0 || schema[0].wire_name() == key {
    } else {
        let rest = schema.skip(1);
        assert forall|j: int| 0 <= j < at - 1 implies rest[j].wire_name() != key by {
            assert(rest[j] == schema[j + 1]);
        }
        lemma_position_of(rest, key, at - 1);
    }
}

pub proof fn lemma_position_range(schema: Seq<FieldSpecView>, key: Seq<char>)
    ensures
        0 <= position_of(schema, key) <= schema.len(),
    decreases schema.len(),
{
    if schema.len() == 0 || schema[0].wire_name() == key {
    } else {
        lemma_position_range(schema.skip(1), key);
    }
}

/// The value that a field of type `base` takes from a received text: the
/// text itself for a raw field; else what its decoded text denotes, and none
/// where it cannot be decoded.
pub open spec fn field_value(base: BaseType, piece: PieceView) -> Option<ValueView> {
    if base == BaseType::Raw {
        Some(ValueView::Text(piece.raw))
    } else {
        match piece.decoded {
            Some(text) => coerced(base, text),
            None => None,
        }
    }
}

/// Reads a received text as a value of type `base`.
pub fn read_field(base: BaseType, piece: &Piece) -> (value: Option<Value>)
    ensures
        value.deep_view() == field_value(base, piece@),
{
    match base {
        BaseType::Raw => Some(Value::Text(piece.raw.clone())),
        _ => match &piece.decoded {
            Some(text) => coerce(base, text.as_str()),
            None => None,
        },
    }
}

/// The values gathered for the fields of the schema, one slot for each, once
/// the input fields were taken in order; or the fault of the first input
/// field that has one.
pub open spec fn filled(fields: Seq<FieldView>, schema: Seq<FieldSpecView>, policy: Policy)
    -> Result<Seq<Option<ValueView>>, DecodeErrorView>
    decreases fields.len(),
{
    if fields.len() == 0 {
        Ok(Seq::new(schema.len(), |i: int| None))
    } else {
        match filled(fields.drop_last(), schema, policy) {
            Err(e) => Err(e),
            Ok(slots) => {
                let field = fields.last();
                let at = position_of(schema, field.key);
                if at >= schema.len() {
                    if policy == Policy::Strict {
                        Err(DecodeErrorView::UnknownField(field.key))
                    } else {
                        Ok(slots)
                    }
                } else if slots[at] is Some {
                    Err(DecodeErrorView::TypeMismatch(field.key))
                } else {
                    match field_value(schema[at].base, field.value) {
                        Some(v) => Ok(slots.update(at, Some(v))),
                        None => Err(DecodeErrorView::TypeMismatch(field.key)),
                    }
                }
            },
        }
    }
}

/// The position of the first empty slot, or the number of slots where none
/// is empty.
pub open spec fn first_empty(slots: Seq<Option<ValueView>>) -> int
    decreases slots.len(),
{
    if slots.len() == 0 || slots[0] is None {
        0
    } else {
        1 + first_empty(slots.skip(1))
    }
}

pub proof fn lemma_first_empty(slots: Seq<Option<ValueView>>, at: int)
    requires
        0 <= at <= slots.len(),
        forall|j: int| 0 <= j < at ==> slots[j] is Some,
        at == slots.len() || slots[at] is None,
    ensures
        first_empty(slots) == at,
    decreases slots.len(),
{
    if slots.len() == 0 || slots[0] is None {
    } else {
        let rest = slots.skip(1);
        assert forall|j: int| 0 <= j < at - 1 implies rest[j] is Some by {
            assert(rest[j] == slots[j + 1]);
        }
        lemma_first_empty(rest, at - 1);
    }
}

/// The record that the input fields make under the schema: the schema's
/// fields in order, each with the value that the input gives it. The input
/// fields are taken in order, and the first at fault decides the error: one
/// that the schema does not know (under the strict policy only), one that
/// was seen before, one whose value is not of its type. Where no input field
/// is at fault, the first schema field without a value is missing.
pub open spec fn decoded_record(
    fields: Seq<FieldView>,
    schema: Seq<FieldSpecView>,
    policy: Policy,
) -> Result<Seq<EntryView>, DecodeErrorView> {
    match filled(fields, schema, policy) {
        Err(e) => Err(e),
        Ok(slots) => {
            let gap = first_empty(slots);
            if gap < slots.len() {
                Err(DecodeErrorView::MissingField(schema[gap].wire_name()))
            } else {
                Ok(
                    Seq::new(
                        schema.len(),
                        |i: int| EntryView { name: schema[i].name, value: slots[i]->0 },
                    ),
                )
            }
        },
    }
}

/// The number of slots is the number of schema fields.
pub proof fn lemma_filled_len(fields: Seq<FieldView>, schema: Seq<FieldSpecView>, policy: Policy)
    ensures
        filled(fields, schema, policy) matches Ok(slots) ==> slots.len() == schema.len(),
    decreases fields.len(),
{
    if fields.len() > 0 {
        lemma_filled_len(fields.drop_last(), schema, policy);
        lemma_position_range(schema, fields.last().key);
    }
}

/// Once a leading part of the input is at fault, so is the whole, with the
/// same fault.
pub proof fn lemma_fault_stays(
    fields: Seq<FieldView>,
    schema: Seq<FieldSpecView>,
    policy: Policy,
    k: int,
)
    requires
        0 <= k <= fields.len(),
        filled(fields.take(k), schema, policy) is Err,
    ensures
        filled(fields, schema, policy) == filled(fields.take(k), schema, policy),
    decreases fields.len() - k,
{
    if k == fields.len() {
        assert(fields.take(k) =~= fields);
    } else {
        assert(fields.take(k + 1).drop_last() =~= fields.take(k));
        lemma_fault_stays(fields, schema, policy, k + 1);
    }
}

/// Where the schema knows every key of the input, both policies decode the
/// input alike.
pub proof fn policies_agree_on_known_fields(fields: Seq<FieldView>, schema: Seq<FieldSpecView>)
    requires
        forall|i: int| 0 <= i < fields.len() ==> knows(schema, #[trigger] fields[i].key),
    ensures
        filled(fields, schema, Policy::Strict) == filled(fields, schema, Policy::Lenient),
        decoded_record(fields, schema, Policy::Strict) == decoded_record(
            fields,
            schema,
            Policy::Lenient,
        ),
    decreases fields.len(),
{
    if fields.len() > 0 {
        let front = fields.drop_last();
        assert forall|i: int| 0 <= i < front.len() implies knows(
            schema,
            #[trigger] front[i].key,
        ) by {
            assert(front[i] == fields[i]);
        }
        policies_agree_on_known_fields(front, schema);
        assert(knows(schema, fields[fields.len() - 1].key));
    }
}

/// The strict policy rejects an input with a field that the schema does not
/// know.
pub proof fn strict_rejects_unknown_field(
    fields: Seq<FieldView>,
    schema: Seq<FieldSpecView>,
    i: int,
)
    requires
        0 <= i < fields.len(),
        !knows(schema, fields[i].key),
    ensures
        decoded_record(fields, schema, Policy::Strict) is Err,
{
    let part = fields.take(i + 1);
    assert(part.last() == fields[i]);
    assert(filled(part, schema, Policy::Strict) is Err);
    lemma_fault_stays(fields, schema, Policy::Strict, i + 1);
}

/// The input fields that the schema knows.
pub open spec fn known_fields(fields: Seq<FieldView>, schema: Seq<FieldSpecView>) -> Seq<
    FieldView,
>
    decreases fields.len(),
{
    if fields.len() == 0 {
        Seq::empty()
    } else if knows(schema, fields.last().key) {
        known_fields(fields.drop_last(), schema).push(fields.last())
    } else {
        known_fields(fields.drop_last(), schema)
    }
}

/// The lenient policy decodes an input as the strict policy decodes what is
/// left of it without the fields that the schema does not know.
pub proof fn lenient_ignores_unknown_fields(fields: Seq<FieldView>, schema: Seq<FieldSpecView>)
    ensures
        filled(fields, schema, Policy::Lenient) == filled(
            known_fields(fields, schema),
            schema,
            Policy::Strict,
        ),
        decoded_record(fields, schema, Policy::Lenient) == decoded_record(
            known_fields(fields, schema),
            schema,
            Policy::Strict,
        ),
    decreases fields.len(),
{
    if fields.len() > 0 {
        let front = fields.drop_last();
        lenient_ignores_unknown_fields(front, schema);
        if knows(schema, fields.last().key) {
            let kept = known_fields(fields, schema);
            assert(kept.drop_last() =~= known_fields(front, schema));
            assert(kept.last() == fields.last());
        }
    }
}

/// A slot is empty until an input field with the key of its schema field
/// comes.
proof fn lemma_slot_stays_empty(
    fields: Seq<FieldView>,
    schema: Seq<FieldSpecView>,
    policy: Policy,
    k: int,
)
    requires
        0 <= k < schema.len(),
        forall|i: int| 0 <= i < fields.len() ==> position_of(schema, #[trigger] fields[i].key) != k,
    ensures
        filled(fields, schema, policy) matches Ok(slots) ==> slots.len() == schema.len()
            && slots[k] is None,
    decreases fields.len(),
{
    if fields.len() > 0 {
        let front = fields.drop_last();
        assert forall|i: int| 0 <= i < front.len() implies position_of(
            schema,
            #[trigger] front[i].key,
        ) != k by {
            assert(front[i] == fields[i]);
        }
        lemma_slot_stays_empty(front, schema, policy, k);
        lemma_filled_len(front, schema, policy);
        lemma_position_range(schema, fields.last().key);
        assert(position_of(schema, fields[fields.len() - 1].key) != k);
    }
}

proof fn lemma_first_empty_bound(slots: Seq<Option<ValueView>>, k: int)
    requires
        0 <= k < slots.len(),
        slots[k] is None,
    ensures
        0 <= first_empty(slots) <= k,
    decreases slots.len(),
{
    if slots.len() == 0 || slots[0] is None {
    } else {
        let rest = slots.skip(1);
        assert(rest[k - 1] == slots[k]);
        lemma_first_empty_bound(rest, k - 1);
    }
}

/// Both policies reject an input that holds no field for a field of the
/// schema.
pub proof fn missing_field_is_rejected(
    fields: Seq<FieldView>,
    schema: Seq<FieldSpecView>,
    policy: Policy,
    k: int,
)
    requires
        0 <= k < schema.len(),
        forall|i: int| 0 <= i < fields.len() ==> position_of(schema, #[trigger] fields[i].key) != k,
    ensures
        decoded_record(fields, schema, policy) is Err,
{
    lemma_slot_stays_empty(fields, schema, policy, k);
    match filled(fields, schema, policy) {
        Ok(slots) => {
            lemma_first_empty_bound(slots, k);
        },
        Err(_) => {},
    }
}

/// The position in `schema` of the field that the input holds under `key`.
fn find_field(schema: &Vec<FieldSpec>, key: &str) -> (at: usize)
    ensures
        at == position_of(schema.deep_view(), key@),
        at <= schema.len(),
{
    let mut i: usize = 0;
    while i < schema.len()
        invariant
            i <= schema.len(),
            forall|j: int| 0 <= j < i ==> schema.deep_view()[j].wire_name() != key@,
        decreases schema.len() - i,
    {
        proof {
            assert(schema.deep_view()[i as int] == schema[i as int]@);
        }
        if same_text(schema[i].wire_name(), key) {
            proof {
                lemma_position_of(schema.deep_view(), key@, i as int);
            }
            return i;
        }
        i = i + 1;
    }
    proof {
        lemma_position_of(schema.deep_view(), key@, i as int);
    }
    i
}

/// Gathers the values of the schema's fields from the input fields.
fn fill(fields: &Vec<Field>, schema: &Vec<FieldSpec>, policy: Policy) -> (out: Result<
    Vec<Option<Value>>,
    DecodeError,
>)
    ensures
        match out {
            Ok(slots) => filled(fields.deep_view(), schema.deep_view(), policy) == Ok::<
                Seq<Option<ValueView>>,
                DecodeErrorView,
            >(slots.deep_view()),
            Err(e) => filled(fields.deep_view(), schema.deep_view(), policy) == Err::<
                Seq<Option<ValueView>>,
                DecodeErrorView,
            >(e@),
        },
{
    let mut slots: Vec<Option<Value>> = Vec::new();
    let mut k: usize = 0;
    while k < schema.len()
        invariant
            k <= schema.len(),
            slots.len() == k,
            forall|j: int| 0 <= j < k ==> slots[j] is None,
        decreases schema.len() - k,
    {
        slots.push(None);
        k = k + 1;
    }
    let ghost all = fields.deep_view();
    let ghost sch = schema.deep_view();
    proof {
        assert(all.take(0) =~= Seq::<FieldView>::empty());
        assert(slots.deep_view() =~= Seq::new(sch.len(), |i: int| None::<ValueView>));
    }
    let mut i: usize = 0;
    while i < fields.len()
        invariant
            i <= fields.len(),
            all == fields.deep_view(),
            sch == schema.deep_view(),
            slots.len() == schema.len(),
            filled(all.take(i as int), sch, policy) == Ok::<
                Seq<Option<ValueView>>,
                DecodeErrorView,
            >(slots.deep_view()),
        decreases fields.len() - i,
    {
        let ghost before = slots.deep_view();
        proof {
            assert(all.take(i + 1).drop_last() =~= all.take(i as int));
            assert(all.take(i + 1).last() == fields[i as int]@);
        }
        let field = &fields[i];
        let at = find_field(schema, field.key.as_str());
        if at >= schema.len() {
            match policy {
                Policy::Strict => {
                    proof {
                        lemma_fault_stays(all, sch, policy, i + 1);
                    }
                    return Err(DecodeError::UnknownField(field.key.clone()));
                },
                Policy::Lenient => {},
            }
        } else {
            proof {
                assert(before[at as int] == slots[at as int].deep_view());
                assert(sch[at as int] == schema[at as int]@);
            }
            if slots[at].is_some() {
                proof {
                    lemma_fault_stays(all, sch, policy, i + 1);
                }
                return Err(DecodeError::TypeMismatch(field.key.clone()));
            }
            let value = read_field(schema[at].base, &field.value);
            match value {
                None => {
                    proof {
                        lemma_fault_stays(all, sch, policy, i + 1);
                    }
                    return Err(DecodeError::TypeMismatch(field.key.clone()));
                },
                Some(v) => {
                    let ghost model = v.deep_view();
                    slots.set(at, Some(v));
                    proof {
                        assert(slots.deep_view() =~= before.update(at as int, Some(model)));
                    }
                },
            }
        }
        i = i + 1;
    }
    proof {
        assert(all.take(i as int) =~= all);
    }
    Ok(slots)
}

/// Decodes the input fields into a record of the schema.
pub fn decode(fields: &Vec<Field>, schema: &Vec<FieldSpec>, policy: Policy) -> (out: Result<
    Vec<Entry>,
    DecodeError,
>)
    ensures
        match out {
            Ok(record) => decoded_record(fields.deep_view(), schema.deep_view(), policy) == Ok::<
                Seq<EntryView>,
                DecodeErrorView,
            >(record.deep_view()),
            Err(e) => decoded_record(fields.deep_view(), schema.deep_view(), policy) == Err::<
                Seq<EntryView>,
                DecodeErrorView,
            >(e@),
        },
{
    let mut slots = match fill(fields, schema, policy) {
        Ok(slots) => slots,
        Err(e) => {
            return Err(e);
        },
    };
    let ghost sch = schema.deep_view();
    let ghost got = slots.deep_view();
    proof {
        lemma_filled_len(fields.deep_view(), sch, policy);
    }
    let mut record: Vec<Entry> = Vec::new();
    let mut i: usize = 0;
    while i < schema.len()
        invariant
            i <= schema.len(),
            slots.len() == schema.len(),
            sch == schema.deep_view(),
            got.len() == schema.len(),
            filled(fields.deep_view(), sch, policy) == Ok::<
                Seq<Option<ValueView>>,
                DecodeErrorView,
            >(got),
            record.len() == i,
            forall|j: int| 0 <= j < i ==> got[j] is Some,
            forall|j: int| i <= j < slots.len() ==> slots[j].deep_view() == got[j],
            forall|j: int|
                0 <= j < i ==> (#[trigger] record[j])@ == (EntryView {
                    name: sch[j].name,
                    value: got[j]->0,
                }),
        decreases schema.len() - i,
    {
        proof {
            assert(sch[i as int] == schema[i as int]@);
        }
        let mut slot: Option<Value> = None;
        std::mem::swap(&mut slots[i], &mut slot);
        match slot {
            None => {
                proof {
                    lemma_first_empty(got, i as int);
                }
                return Err(DecodeError::MissingField(schema[i].wire_name().to_owned()));
            },
            Some(v) => {
                record.push(Entry { name: schema[i].name.clone(), value: v });
            },
        }
        i = i + 1;
    }
    proof {
        lemma_first_empty(got, got.len() as int);
        assert(record.deep_view() =~= Seq::new(
            sch.len(),
            |i: int| EntryView { name: sch[i].name, value: got[i]->0 },
        ));
    }
    Ok(record)
}

/// Reads the fields of a form body and decodes them into a record of the
/// schema.
pub fn decode_text(body: &str, schema: &Vec<FieldSpec>, policy: Policy) -> (out: Result<
    Vec<Entry>,
    DecodeError,
>)
    ensures
        match out {
            Ok(record) => decoded_record(fields_of(body@), schema.deep_view(), policy) == Ok::<
                Seq<EntryView>,
                DecodeErrorView,
            >(record.deep_view()),
            Err(e) => decoded_record(fields_of(body@), schema.deep_view(), policy) == Err::<
                Seq<EntryView>,
                DecodeErrorView,
            >(e@),
        },
{
    let fields = parse_fields(body);
    decode(&fields, schema, policy)
}

} // verus!
