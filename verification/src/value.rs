//! The structured-value tree: what a data shell passes along its pipelines.
use vstd::prelude::*;
use vstd::slice::slice_to_vec;
use crate::timestamp::{instant_in_range, Timestamp};

verus! {

/// The kinds of shell value that are no data and have no place on the wire.
#[derive(Clone, Copy, Debug, PartialEq, Eq, Structural)]
pub enum Unsupported {
    Block,
    Closure,
    Error,
    CellPath,
    MatchPattern,
}

/// A structured value.
///
/// A float is held as its IEEE 754 binary64 bit pattern. A range is held as the list of the
/// values it runs through. The fields of a record stand in insertion order.
#[derive(Debug, PartialEq, Eq)]
pub enum StructuredValue {
    Null,
    Bool(bool),
    Int(i64),
    Float(u64),
    String(String),
    Binary(Vec<u8>),
    List(Vec<StructuredValue>),
    Record(Vec<(String, StructuredValue)>),
    Date(Timestamp),
    /// A size in bytes.
    Filesize(i64),
    /// A span of time in nanoseconds.
    Duration(i64),
    Range(Vec<StructuredValue>),
    Unsupported(Unsupported),
}

/// The mathematical value of a [`StructuredValue`].
pub enum ValueModel {
    Null,
    Bool(bool),
    Int(int),
    Float(u64),
    String(Seq<char>),
    Binary(Seq<u8>),
    List(Seq<ValueModel>),
    Record(Seq<(Seq<char>, ValueModel)>),
    Date(int, int),
    Filesize(int),
    Duration(int),
    Range(Seq<ValueModel>),
    Unsupported(Unsupported),
}

/// The mathematical value of a structured value, variant by variant.
pub open spec fn value_model(value: StructuredValue) -> ValueModel
    decreases value,
{
    match value {
        StructuredValue::Null => ValueModel::Null,
        StructuredValue::Bool(b) => ValueModel::Bool(b),
        StructuredValue::Int(n) => ValueModel::Int(n as int),
        StructuredValue::Float(bits) => ValueModel::Float(bits),
        StructuredValue::String(text) => ValueModel::String(text@),
        StructuredValue::Binary(bytes) => ValueModel::Binary(bytes@),
        StructuredValue::List(items) => ValueModel::List(
            Seq::new(
                items@.len(),
                |i: int|
                    if 0 <= i < items@.len() {
                        value_model(items@[i])
                    } else {
                        ValueModel::Null
                    },
            ),
        ),
        StructuredValue::Record(fields) => ValueModel::Record(
            Seq::new(
                fields@.len(),
                |i: int|
                    if 0 <= i < fields@.len() {
                        (fields@[i].0@, value_model(fields@[i].1))
                    } else {
                        (Seq::empty(), ValueModel::Null)
                    },
            ),
        ),
        StructuredValue::Date(instant) => ValueModel::Date(
            instant.seconds as int,
            instant.nanos as int,
        ),
        StructuredValue::Filesize(n) => ValueModel::Filesize(n as int),
        StructuredValue::Duration(n) => ValueModel::Duration(n as int),
        StructuredValue::Range(items) => ValueModel::Range(
            Seq::new(
                items@.len(),
                |i: int|
                    if 0 <= i < items@.len() {
                        value_model(items@[i])
                    } else {
                        ValueModel::Null
                    },
            ),
        ),
        StructuredValue::Unsupported(kind) => ValueModel::Unsupported(kind),
    }
}

impl View for StructuredValue {
    type V = ValueModel;

    open spec fn view(&self) -> ValueModel {
        value_model(*self)
    }
}

/// The views of a run of values, one for one.
pub open spec fn values_view(items: Seq<StructuredValue>) -> Seq<ValueModel> {
    Seq::new(items.len(), |i: int| items[i]@)
}

/// The views of a run of record fields, one for one.
pub open spec fn fields_view(fields: Seq<(String, StructuredValue)>) -> Seq<(Seq<char>, ValueModel)> {
    Seq::new(fields.len(), |i: int| (fields[i].0@, fields[i].1@))
}

/// Whether no name stands twice among the fields of a record.
pub open spec fn names_unique(fields: Seq<(Seq<char>, ValueModel)>) -> bool {
    forall|i: int, j: int|
        0 <= i < j < fields.len() ==> (#[trigger] fields[i]).0 != (#[trigger] fields[j]).0
}

/// Whether a value is plain data: null, a boolean, an integer of 64 signed bits, a float, a
/// string, a binary, a date that a date can hold, a list of plain data, or a record of plain
/// data under names that are unique.
pub open spec fn is_plain_data(value: ValueModel) -> bool
    decreases value,
{
    match value {
        ValueModel::Null => true,
        ValueModel::Bool(_) => true,
        ValueModel::Int(n) => i64::MIN <= n <= i64::MAX,
        ValueModel::Float(_) => true,
        ValueModel::String(_) => true,
        ValueModel::Binary(_) => true,
        ValueModel::List(items) => forall|i: int|
            0 <= i < items.len() ==> is_plain_data(#[trigger] items[i]),
        ValueModel::Record(fields) => names_unique(fields) && forall|i: int|
            0 <= i < fields.len() ==> is_plain_data((#[trigger] fields[i]).1),
        ValueModel::Date(seconds, nanos) => instant_in_range(seconds, nanos),
        _ => false,
    }
}

/// The fields of a record without those named `name`, the others in their order.
pub open spec fn without_name(fields: Seq<(Seq<char>, ValueModel)>, name: Seq<char>) -> Seq<
    (Seq<char>, ValueModel),
>
    decreases fields.len(),
{
    if fields.len() == 0 {
        fields
    } else if fields.last().0 == name {
        without_name(fields.drop_last(), name)
    } else {
        without_name(fields.drop_last(), name).push(fields.last())
    }
}

/// The fields of a record after `name` is set to `value`: a field of that name leaves its place,
/// and the new field stands last.
pub open spec fn record_insert(
    fields: Seq<(Seq<char>, ValueModel)>,
    name: Seq<char>,
    value: ValueModel,
) -> Seq<(Seq<char>, ValueModel)> {
    without_name(fields, name).push((name, value))
}

/// Whether a field of the record is named `name`.
pub open spec fn has_name(fields: Seq<(Seq<char>, ValueModel)>, name: Seq<char>) -> bool {
    exists|i: int| 0 <= i < fields.len() && (#[trigger] fields[i]).0 == name
}

/// Taking a name out leaves no field of that name, keeps every other field, and keeps names
/// that were unique so.
pub proof fn lemma_without_name(fields: Seq<(Seq<char>, ValueModel)>, name: Seq<char>)
    ensures
        !has_name(without_name(fields, name), name),
        without_name(fields, name).len() <= fields.len(),
        forall|i: int|
            0 <= i < without_name(fields, name).len() ==> fields.contains(
                #[trigger] without_name(fields, name)[i],
            ),
        !has_name(fields, name) ==> without_name(fields, name) == fields,
        names_unique(fields) ==> names_unique(without_name(fields, name)),
    decreases fields.len(),
{
    if fields.len() > 0 {
        let front = fields.drop_last();
        let kept = without_name(front, name);
        lemma_without_name(front, name);
        assert forall|i: int| 0 <= i < kept.len() implies fields.contains(#[trigger] kept[i]) by {
            let j = choose|j: int| 0 <= j < front.len() && front[j] == kept[i];
            assert(fields[j] == kept[i]);
        }
        if fields.last().0 == name {
            assert(has_name(fields, name)) by {
                assert(fields[fields.len() - 1].0 == name);
            }
        } else {
            let all = kept.push(fields.last());
            assert(fields.contains(fields.last())) by {
                assert(fields[fields.len() - 1] == fields.last());
            }
            if !has_name(fields, name) {
                assert(!has_name(front, name)) by {
                    if has_name(front, name) {
                        let j = choose|j: int| 0 <= j < front.len() && (#[trigger] front[j]).0 == name;
                        assert(fields[j].0 == name);
                    }
                }
                assert(all =~= fields);
            }
            if names_unique(fields) {
                assert(names_unique(front)) by {
                    assert forall|i: int, j: int| 0 <= i < j < front.len() implies (
                    #[trigger] front[i]).0 != (#[trigger] front[j]).0 by {
                        assert(fields[i] == front[i] && fields[j] == front[j]);
                    }
                }
                assert forall|i: int, j: int| 0 <= i < j < all.len() implies (#[trigger] all[i]).0
                    != (#[trigger] all[j]).0 by {
                    if j == kept.len() {
                        let k = choose|k: int| 0 <= k < front.len() && front[k] == kept[i];
                        assert(fields[k] == kept[i]);
                        assert(fields[fields.len() - 1] == all[j]);
                    }
                }
            }
        }
    }
}

/// Setting a field of a record with unique names leaves the names unique.
pub proof fn lemma_record_insert_unique(
    fields: Seq<(Seq<char>, ValueModel)>,
    name: Seq<char>,
    value: ValueModel,
)
    requires
        names_unique(fields),
    ensures
        names_unique(record_insert(fields, name, value)),
{
    lemma_without_name(fields, name);
    let kept = without_name(fields, name);
    let all = record_insert(fields, name, value);
    assert forall|i: int, j: int| 0 <= i < j < all.len() implies (#[trigger] all[i]).0 != (
    #[trigger] all[j]).0 by {
        if j == kept.len() {
            assert(kept[i].0 != name);
        }
    }
}

/// In a record with unique names, taking out a name takes out the one field that bears it.
pub proof fn lemma_without_name_at(
    fields: Seq<(Seq<char>, ValueModel)>,
    name: Seq<char>,
    at: int,
)
    requires
        names_unique(fields),
        0 <= at < fields.len(),
        fields[at].0 == name,
    ensures
        without_name(fields, name) == fields.remove(at),
    decreases fields.len(),
{
    let front = fields.drop_last();
    if at == fields.len() - 1 {
        assert(!has_name(front, name)) by {
            if has_name(front, name) {
                let j = choose|j: int| 0 <= j < front.len() && (#[trigger] front[j]).0 == name;
                assert(fields[j].0 == name && fields[at].0 == name);
            }
        }
        lemma_without_name(front, name);
        assert(fields.remove(at) =~= front);
    } else {
        assert(fields.last().0 != name) by {
            assert(fields[fields.len() - 1].0 != fields[at].0);
        }
        assert(names_unique(front)) by {
            assert forall|i: int, j: int| 0 <= i < j < front.len() implies (#[trigger] front[i]).0
                != (#[trigger] front[j]).0 by {
                assert(fields[i] == front[i] && fields[j] == front[j]);
            }
        }
        lemma_without_name_at(front, name, at);
        assert(fields.remove(at) =~= front.remove(at).push(fields.last()));
    }
}

pub proof fn lemma_list_view(items: Vec<StructuredValue>)
    ensures
        StructuredValue::List(items)@ == ValueModel::List(values_view(items@)),
        StructuredValue::Range(items)@ == ValueModel::Range(values_view(items@)),
{
    assert(StructuredValue::List(items)@->List_0 =~= values_view(items@));
    assert(StructuredValue::Range(items)@->Range_0 =~= values_view(items@));
}

pub proof fn lemma_record_view(fields: Vec<(String, StructuredValue)>)
    ensures
        StructuredValue::Record(fields)@ == ValueModel::Record(fields_view(fields@)),
{
    assert(StructuredValue::Record(fields)@->Record_0 =~= fields_view(fields@));
}

/// Copies a run of values, item by item.
fn clone_items(items: &Vec<StructuredValue>, Ghost(whole): Ghost<StructuredValue>) -> (r: Vec<
    StructuredValue,
>)
    requires
        whole == StructuredValue::List(*items) || whole == StructuredValue::Range(*items),
    ensures
        values_view(r@) == values_view(items@),
    decreases whole, 0nat,
{
    let mut copies: Vec<StructuredValue> = Vec::new();
    let mut at: usize = 0;
    while at < items.len()
        invariant
            at <= items.len(),
            whole == StructuredValue::List(*items) || whole == StructuredValue::Range(*items),
            copies@.len() == at,
            forall|i: int| 0 <= i < at ==> (#[trigger] copies@[i])@ == items@[i]@,
        decreases items.len() - at,
    {
        proof {
            if whole == StructuredValue::List(*items) {
                assert(decreases_to!(whole => whole->List_0));
            } else {
                assert(decreases_to!(whole => whole->Range_0));
            }
            assert(decreases_to!(items => items[at as int]));
        }
        let copy = items[at].clone();
        copies.push(copy);
        at = at + 1;
    }
    assert(values_view(copies@) =~= values_view(items@));
    copies
}

impl Clone for StructuredValue {
    /// A copy of the whole tree.
    fn clone(&self) -> (r: Self)
        ensures
            r@ == self@,
        decreases self, 1nat,
    {
        match self {
            StructuredValue::Null => StructuredValue::Null,
            StructuredValue::Bool(b) => StructuredValue::Bool(*b),
            StructuredValue::Int(n) => StructuredValue::Int(*n),
            StructuredValue::Float(bits) => StructuredValue::Float(*bits),
            StructuredValue::String(text) => StructuredValue::String(text.clone()),
            StructuredValue::Binary(bytes) => StructuredValue::Binary(
                slice_to_vec(bytes.as_slice()),
            ),
            StructuredValue::List(items) => {
                let copies = clone_items(items, Ghost(*self));
                proof {
                    lemma_list_view(*items);
                    lemma_list_view(copies);
                }
                StructuredValue::List(copies)
            },
            StructuredValue::Record(fields) => {
                let mut copies: Vec<(String, StructuredValue)> = Vec::new();
                let mut at: usize = 0;
                while at < fields.len()
                    invariant
                        at <= fields.len(),
                        self == StructuredValue::Record(*fields),
                        copies@.len() == at,
                        forall|i: int|
                            0 <= i < at ==> (#[trigger] copies@[i]).0@ == fields@[i].0@
                                && copies@[i].1@ == fields@[i].1@,
                    decreases fields.len() - at,
                {
                    proof {
                        let field = fields@[at as int];
                        assert(decreases_to!(*self => self->Record_0));
                        assert(decreases_to!(fields => fields[at as int]));
                        assert(decreases_to!(field => field.1));
                    }
                    let name = fields[at].0.clone();
                    let value = fields[at].1.clone();
                    copies.push((name, value));
                    at = at + 1;
                }
                proof {
                    lemma_record_view(*fields);
                    lemma_record_view(copies);
                    assert(fields_view(copies@) =~= fields_view(fields@));
                }
                StructuredValue::Record(copies)
            },
            StructuredValue::Date(instant) => StructuredValue::Date(*instant),
            StructuredValue::Filesize(n) => StructuredValue::Filesize(*n),
            StructuredValue::Duration(n) => StructuredValue::Duration(*n),
            StructuredValue::Range(items) => {
                let copies = clone_items(items, Ghost(*self));
                proof {
                    lemma_list_view(*items);
                    lemma_list_view(copies);
                }
                StructuredValue::Range(copies)
            },
            StructuredValue::Unsupported(kind) => StructuredValue::Unsupported(*kind),
        }
    }
}

/// Sets the field `name` of a record to `value`: a field of that name leaves its place, and
/// the new field stands last.
pub fn insert_field(fields: &mut Vec<(String, StructuredValue)>, name: String, value: StructuredValue)
    requires
        names_unique(fields_view(old(fields)@)),
    ensures
        fields_view(final(fields)@) == record_insert(fields_view(old(fields)@), name@, value@),
        names_unique(fields_view(final(fields)@)),
{
    let ghost before = fields_view(fields@);
    let mut at: usize = 0;
    let mut found: bool = false;
    while at < fields.len()
        invariant_except_break
            at <= fields.len(),
            !found,
            fields_view(fields@) == before,
            forall|i: int| 0 <= i < at ==> (#[trigger] before[i]).0 != name@,
        ensures
            at <= fields.len(),
            fields_view(fields@) == before,
            found ==> at < fields.len() && before[at as int].0 == name@,
            !found ==> !has_name(before, name@),
        decreases fields.len() - at,
    {
        if fields[at].0 == name {
            assert(before[at as int].0 == name@);
            found = true;
            break;
        }
        at = at + 1;
    }
    proof {
        lemma_without_name(before, name@);
        lemma_record_insert_unique(before, name@, value@);
    }
    if found {
        proof {
            lemma_without_name_at(before, name@, at as int);
        }
        let _ = fields.remove(at);
        assert(fields_view(fields@) =~= before.remove(at as int));
    }
    fields.push((name, value));
    assert(fields_view(fields@) =~= record_insert(before, name@, value@));
}

} // verus!
