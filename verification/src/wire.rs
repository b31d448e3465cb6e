//! The wire-side value tree: one variant for each MessagePack type.
use vstd::prelude::*;
use vstd::slice::slice_to_vec;

verus! {

/// A MessagePack value as it stands on the wire.
///
/// Floats are held as their IEEE 754 bit patterns, so that two wire values are
/// equal exactly when they serialise to the same bytes.
#[derive(Debug, PartialEq, Eq)]
pub enum WireValue {
    Nil,
    Boolean(bool),
    /// An integer between `i64::MIN` and `u64::MAX`, the range of the format.
    Integer(i128),
    /// The bit pattern of a binary32 float.
    F32(u32),
    /// The bit pattern of a binary64 float.
    F64(u64),
    /// The raw bytes of a string, which need not be valid UTF-8.
    String(Vec<u8>),
    Binary(Vec<u8>),
    Array(Vec<WireValue>),
    /// Key and value pairs in wire order; keys may repeat and may be of any type.
    Dict(Vec<(WireValue, WireValue)>),
    /// An extension value: its type tag and its payload.
    Ext(i8, Vec<u8>),
}

/// The mathematical value of a [`WireValue`].
pub enum WireModel {
    Nil,
    Boolean(bool),
    Integer(int),
    F32(u32),
    F64(u64),
    String(Seq<u8>),
    Binary(Seq<u8>),
    Array(Seq<WireModel>),
    Dict(Seq<(WireModel, WireModel)>),
    Ext(i8, Seq<u8>),
}

/// The mathematical value of a wire value, variant by variant.
pub open spec fn wire_model(wire: WireValue) -> WireModel
    decreases wire,
{
    match wire {
        WireValue::Nil => WireModel::Nil,
        WireValue::Boolean(b) => WireModel::Boolean(b),
        WireValue::Integer(n) => WireModel::Integer(n as int),
        WireValue::F32(bits) => WireModel::F32(bits),
        WireValue::F64(bits) => WireModel::F64(bits),
        WireValue::String(bytes) => WireModel::String(bytes@),
        WireValue::Binary(bytes) => WireModel::Binary(bytes@),
        WireValue::Array(items) => WireModel::Array(
            Seq::new(
                items@.len(),
                |i: int|
                    if 0 <= i < items@.len() {
                        wire_model(items@[i])
                    } else {
                        WireModel::Nil
                    },
            ),
        ),
        WireValue::Dict(pairs) => WireModel::Dict(
            Seq::new(
                pairs@.len(),
                |i: int|
                    if 0 <= i < pairs@.len() {
                        (wire_model(pairs@[i].0), wire_model(pairs@[i].1))
                    } else {
                        (WireModel::Nil, WireModel::Nil)
                    },
            ),
        ),
        WireValue::Ext(tag, payload) => WireModel::Ext(tag, payload@),
    }
}

impl View for WireValue {
    type V = WireModel;

    open spec fn view(&self) -> WireModel {
        wire_model(*self)
    }
}

/// The views of a run of wire values, one for one.
pub open spec fn wires_view(items: Seq<WireValue>) -> Seq<WireModel> {
    Seq::new(items.len(), |i: int| items[i]@)
}

/// The views of a run of key and value pairs, one for one.
pub open spec fn pairs_view(pairs: Seq<(WireValue, WireValue)>) -> Seq<(WireModel, WireModel)> {
    Seq::new(pairs.len(), |i: int| (pairs[i].0@, pairs[i].1@))
}

pub proof fn lemma_array_view(items: Vec<WireValue>)
    ensures
        WireValue::Array(items)@ == WireModel::Array(wires_view(items@)),
{
    assert(WireValue::Array(items)@->Array_0 =~= wires_view(items@));
}

pub proof fn lemma_dict_view(pairs: Vec<(WireValue, WireValue)>)
    ensures
        WireValue::Dict(pairs)@ == WireModel::Dict(pairs_view(pairs@)),
{
    assert(WireValue::Dict(pairs)@->Dict_0 =~= pairs_view(pairs@));
}

impl Clone for WireValue {
    /// A copy of the whole tree.
    fn clone(&self) -> (r: Self)
        ensures
            r@ == self@,
        decreases self,
    {
        match self {
            WireValue::Nil => WireValue::Nil,
            WireValue::Boolean(b) => WireValue::Boolean(*b),
            WireValue::Integer(n) => WireValue::Integer(*n),
            WireValue::F32(bits) => WireValue::F32(*bits),
            WireValue::F64(bits) => WireValue::F64(*bits),
            WireValue::String(bytes) => WireValue::String(slice_to_vec(bytes.as_slice())),
            WireValue::Binary(bytes) => WireValue::Binary(slice_to_vec(bytes.as_slice())),
            WireValue::Array(items) => {
                let mut copies: Vec<WireValue> = Vec::new();
                let mut at: usize = 0;
                proof {
                    lemma_array_view(*items);
                }
                while at < items.len()
                    invariant
                        at <= items.len(),
                        self == WireValue::Array(*items),
                        copies@.len() == at,
                        forall|i: int| 0 <= i < at ==> (#[trigger] copies@[i])@ == items@[i]@,
                    decreases items.len() - at,
                {
                    assert(decreases_to!(self => items@[at as int])) by {
                        assert(decreases_to!(*self => self->Array_0));
                    }
                    let copy = items[at].clone();
                    copies.push(copy);
                    at = at + 1;
                }
                proof {
                    lemma_array_view(copies);
                    assert(wires_view(copies@) =~= wires_view(items@));
                }
                WireValue::Array(copies)
            },
            WireValue::Dict(pairs) => {
                let mut copies: Vec<(WireValue, WireValue)> = Vec::new();
                let mut at: usize = 0;
                proof {
                    lemma_dict_view(*pairs);
                }
                while at < pairs.len()
                    invariant
                        at <= pairs.len(),
                        self == WireValue::Dict(*pairs),
                        copies@.len() == at,
                        forall|i: int|
                            0 <= i < at ==> (#[trigger] copies@[i]).0@ == pairs@[i].0@
                                && copies@[i].1@ == pairs@[i].1@,
                    decreases pairs.len() - at,
                {
                    proof {
                        let pair = pairs@[at as int];
                        assert(decreases_to!(*self => self->Dict_0));
                        assert(decreases_to!(pairs => pairs[at as int]));
                        assert(decreases_to!(pair => pair.0));
                        assert(decreases_to!(pair => pair.1));
                    }
                    let key = pairs[at].0.clone();
                    let value = pairs[at].1.clone();
                    copies.push((key, value));
                    at = at + 1;
                }
                proof {
                    lemma_dict_view(copies);
                    assert(pairs_view(copies@) =~= pairs_view(pairs@));
                }
                WireValue::Dict(copies)
            },
            WireValue::Ext(tag, payload) => WireValue::Ext(*tag, slice_to_vec(payload.as_slice())),
        }
    }
}

} // verus!
