//! The document that a fee history is written to and read from, and the
//! codecs for the shapes that occur in it: a quantity, a list of quantities,
//! a list of such lists, and a list of ratios.

use crate::quantity::{
    decode_u128, decode_u64, encode_u128, lemma_quantity_round_trip, quantity_text, quantity_within,
};
use vstd::prelude::*;

verus! {

/// A value of the wire document, as the transport hands it over.
#[derive(Debug)]
pub enum WireValue {
    /// The absent value.
    Null,
    /// A truth value.
    Bool(bool),
    /// A number, held as the bit pattern of its binary64 value.
    Number(u64),
    /// A string.
    Text(String),
    /// An array.
    List(Vec<WireValue>),
    /// An object: its members in document order.
    Object(Vec<(String, WireValue)>),
}

/// What a `WireValue` stands for: the same tree over sequences.
pub enum WireModel {
    Null,
    Bool(bool),
    Number(u64),
    Text(Seq<char>),
    List(Seq<WireModel>),
    Object(Seq<(Seq<char>, WireModel)>),
}

impl View for WireValue {
    type V = WireModel;

    open spec fn view(&self) -> WireModel {
        self.model()
    }
}

impl WireValue {
    /// The tree that this value stands for.
    pub open spec fn model(&self) -> WireModel
        decreases self,
    {
        match self {
            WireValue::Null => WireModel::Null,
            WireValue::Bool(b) => WireModel::Bool(*b),
            WireValue::Number(bits) => WireModel::Number(*bits),
            WireValue::Text(s) => WireModel::Text(s@),
            WireValue::List(items) => WireModel::List(
                Seq::new(
                    items@.len(),
                    |i: int|
                        if 0 <= i < items@.len() {
                            items@[i].model()
                        } else {
                            WireModel::Null
                        },
                ),
            ),
            WireValue::Object(members) => WireModel::Object(
                Seq::new(
                    members@.len(),
                    |i: int|
                        if 0 <= i < members@.len() {
                            (members@[i].0@, members@[i].1.model())
                        } else {
                            (Seq::empty(), WireModel::Null)
                        },
                ),
            ),
        }
    }
}

/// The wire form of a quantity: its canonical text.
pub open spec fn quantity_wire(n: nat) -> WireModel {
    WireModel::Text(quantity_text(n))
}

/// The wire form of a list of quantities.
pub open spec fn quantity_list_wire(values: Seq<u128>) -> WireModel {
    WireModel::List(Seq::new(values.len(), |i: int| quantity_wire(values[i] as nat)))
}

/// The wire form of a list of lists of quantities.
pub open spec fn quantity_rows_wire(rows: Seq<Seq<u128>>) -> WireModel {
    WireModel::List(Seq::new(rows.len(), |i: int| quantity_list_wire(rows[i])))
}

/// The wire form of a list of ratios, each a number.
pub open spec fn ratio_list_wire(ratios: Seq<u64>) -> WireModel {
    WireModel::List(Seq::new(ratios.len(), |i: int| WireModel::Number(ratios[i])))
}

/// The quantity of at most `max` that a wire value holds: a string that
/// reads as one.
pub open spec fn wire_quantity(w: WireModel, max: nat) -> Option<nat> {
    match w {
        WireModel::Text(text) => quantity_within(text, max),
        _ => None,
    }
}

/// The list of 128-bit quantities that a wire value holds: an array whose
/// every item is one.
pub open spec fn wire_quantity_list(w: WireModel) -> Option<Seq<u128>> {
    match w {
        WireModel::List(items) => if forall|i: int|
            0 <= i < items.len() ==> wire_quantity(#[trigger] items[i], u128::MAX as nat) is Some {
            Some(
                Seq::new(
                    items.len(),
                    |i: int| wire_quantity(items[i], u128::MAX as nat).unwrap() as u128,
                ),
            )
        } else {
            None
        },
        _ => None,
    }
}

/// The list of lists of quantities that a wire value holds: an array whose
/// every item is a list of quantities.
pub open spec fn wire_quantity_rows(w: WireModel) -> Option<Seq<Seq<u128>>> {
    match w {
        WireModel::List(items) => if forall|i: int|
            0 <= i < items.len() ==> wire_quantity_list(#[trigger] items[i]) is Some {
            Some(Seq::new(items.len(), |i: int| wire_quantity_list(items[i]).unwrap()))
        } else {
            None
        },
        _ => None,
    }
}

/// The ratio that a wire value holds: a number.
pub open spec fn wire_ratio(w: WireModel) -> Option<u64> {
    match w {
        WireModel::Number(bits) => Some(bits),
        _ => None,
    }
}

/// The list of ratios that a wire value holds: an array of numbers.
pub open spec fn wire_ratio_list(w: WireModel) -> Option<Seq<u64>> {
    match w {
        WireModel::List(items) => if forall|i: int|
            0 <= i < items.len() ==> wire_ratio(#[trigger] items[i]) is Some {
            Some(Seq::new(items.len(), |i: int| wire_ratio(items[i]).unwrap()))
        } else {
            None
        },
        _ => None,
    }
}

/// Writes a quantity.
pub fn quantity_to_wire(v: u128) -> (w: WireValue)
    ensures
        w@ == quantity_wire(v as nat),
{
    WireValue::Text(encode_u128(v))
}

/// Writes a list of quantities.
pub fn quantity_list_to_wire(values: &Vec<u128>) -> (w: WireValue)
    ensures
        w@ == quantity_list_wire(values@),
{
    let mut items: Vec<WireValue> = Vec::new();
    let mut i: usize = 0;
    while i < values.len()
        invariant
            i <= values.len(),
            items@.len() == i,
            forall|j: int| 0 <= j < i ==> (#[trigger] items@[j])@ == quantity_wire(values@[j] as nat),
        decreases values.len() - i,
    {
        items.push(quantity_to_wire(values[i]));
        i = i + 1;
    }
    let w = WireValue::List(items);
    assert(w@->List_0 =~= quantity_list_wire(values@)->List_0);
    w
}

/// Writes a list of lists of quantities.
pub fn quantity_rows_to_wire(rows: &Vec<Vec<u128>>) -> (w: WireValue)
    ensures
        w@ == quantity_rows_wire(rows.deep_view()),
{
    let mut items: Vec<WireValue> = Vec::new();
    let mut i: usize = 0;
    while i < rows.len()
        invariant
            i <= rows.len(),
            items@.len() == i,
            forall|j: int| 0 <= j < i ==> (#[trigger] items@[j])@ == quantity_list_wire(rows@[j]@),
        decreases rows.len() - i,
    {
        items.push(quantity_list_to_wire(&rows[i]));
        i = i + 1;
    }
    let w = WireValue::List(items);
    proof {
        let deep = rows.deep_view();
        assert forall|j: int| 0 <= j < deep.len() implies #[trigger] deep[j] == rows@[j]@ by {
            assert(rows@[j].deep_view() =~= rows@[j]@);
        }
        assert(w@->List_0 =~= quantity_rows_wire(deep)->List_0);
    }
    w
}

/// Writes a list of ratios.
pub fn ratio_list_to_wire(ratios: &Vec<u64>) -> (w: WireValue)
    ensures
        w@ == ratio_list_wire(ratios@),
{
    let mut items: Vec<WireValue> = Vec::new();
    let mut i: usize = 0;
    while i < ratios.len()
        invariant
            i <= ratios.len(),
            items@.len() == i,
            forall|j: int| 0 <= j < i ==> (#[trigger] items@[j])@ == WireModel::Number(ratios@[j]),
        decreases ratios.len() - i,
    {
        items.push(WireValue::Number(ratios[i]));
        i = i + 1;
    }
    let w = WireValue::List(items);
    assert(w@->List_0 =~= ratio_list_wire(ratios@)->List_0);
    w
}

/// Reads a 128-bit quantity.
pub fn u128_from_wire(w: &WireValue) -> (r: Option<u128>)
    ensures
        r is Some <==> wire_quantity(w@, u128::MAX as nat) is Some,
        r matches Some(v) ==> wire_quantity(w@, u128::MAX as nat) == Some(v as nat),
{
    match w {
        WireValue::Text(text) => decode_u128(text.as_str()),
        _ => None,
    }
}

/// Reads a 64-bit quantity.
pub fn u64_from_wire(w: &WireValue) -> (r: Option<u64>)
    ensures
        r is Some <==> wire_quantity(w@, u64::MAX as nat) is Some,
        r matches Some(v) ==> wire_quantity(w@, u64::MAX as nat) == Some(v as nat),
{
    match w {
        WireValue::Text(text) => decode_u64(text.as_str()),
        _ => None,
    }
}

/// Reads a list of 128-bit quantities.
pub fn quantity_list_from_wire(w: &WireValue) -> (r: Option<Vec<u128>>)
    ensures
        r is Some <==> wire_quantity_list(w@) is Some,
        r matches Some(values) ==> wire_quantity_list(w@) == Some(values@),
{
    match w {
        WireValue::List(items) => {
            let mut values: Vec<u128> = Vec::new();
            let mut i: usize = 0;
            while i < items.len()
                invariant
                    i <= items.len(),
                    values@.len() == i,
                    w@ is List,
                    w@->List_0.len() == items@.len(),
                    forall|j: int| 0 <= j < items@.len() ==> w@->List_0[j] == (#[trigger] items@[j])@,
                    forall|j: int|
                        0 <= j < i ==> wire_quantity(#[trigger] w@->List_0[j], u128::MAX as nat)
                            == Some(values@[j] as nat),
                decreases items.len() - i,
            {
                match u128_from_wire(&items[i]) {
                    Some(v) => {
                        values.push(v);
                    },
                    None => {
                        assert(wire_quantity(w@->List_0[i as int], u128::MAX as nat) is None);
                        return None;
                    },
                }
                i = i + 1;
            }
            assert(wire_quantity_list(w@)->Some_0 =~= values@);
            Some(values)
        },
        _ => None,
    }
}

/// Reads a list of lists of 128-bit quantities.
pub fn quantity_rows_from_wire(w: &WireValue) -> (r: Option<Vec<Vec<u128>>>)
    ensures
        r is Some <==> wire_quantity_rows(w@) is Some,
        r matches Some(rows) ==> wire_quantity_rows(w@) == Some(rows.deep_view()),
{
    match w {
        WireValue::List(items) => {
            let mut rows: Vec<Vec<u128>> = Vec::new();
            let mut i: usize = 0;
            while i < items.len()
                invariant
                    i <= items.len(),
                    rows@.len() == i,
                    w@ is List,
                    w@->List_0.len() == items@.len(),
                    forall|j: int| 0 <= j < items@.len() ==> w@->List_0[j] == (#[trigger] items@[j])@,
                    forall|j: int|
                        0 <= j < i ==> wire_quantity_list(#[trigger] w@->List_0[j]) == Some(
                            rows@[j]@,
                        ),
                decreases items.len() - i,
            {
                match quantity_list_from_wire(&items[i]) {
                    Some(row) => {
                        rows.push(row);
                    },
                    None => {
                        assert(wire_quantity_list(w@->List_0[i as int]) is None);
                        return None;
                    },
                }
                i = i + 1;
            }
            proof {
                let deep = rows.deep_view();
                assert forall|j: int| 0 <= j < deep.len() implies #[trigger] deep[j] == rows@[j]@ by {
                    assert(rows@[j].deep_view() =~= rows@[j]@);
                }
                assert(wire_quantity_rows(w@)->Some_0 =~= deep);
            }
            Some(rows)
        },
        _ => None,
    }
}

/// Reads a list of ratios.
pub fn ratio_list_from_wire(w: &WireValue) -> (r: Option<Vec<u64>>)
    ensures
        r is Some <==> wire_ratio_list(w@) is Some,
        r matches Some(ratios) ==> wire_ratio_list(w@) == Some(ratios@),
{
    match w {
        WireValue::List(items) => {
            let mut ratios: Vec<u64> = Vec::new();
            let mut i: usize = 0;
            while i < items.len()
                invariant
                    i <= items.len(),
                    ratios@.len() == i,
                    w@ is List,
                    w@->List_0.len() == items@.len(),
                    forall|j: int| 0 <= j < items@.len() ==> w@->List_0[j] == (#[trigger] items@[j])@,
                    forall|j: int|
                        0 <= j < i ==> wire_ratio(#[trigger] w@->List_0[j]) == Some(ratios@[j]),
                decreases items.len() - i,
            {
                match &items[i] {
                    WireValue::Number(bits) => {
                        ratios.push(*bits);
                    },
                    _ => {
                        assert(wire_ratio(w@->List_0[i as int]) is None);
                        return None;
                    },
                }
                i = i + 1;
            }
            assert(wire_ratio_list(w@)->Some_0 =~= ratios@);
            Some(ratios)
        },
        _ => None,
    }
}

/// Reading a written quantity gives the quantity, under every limit that
/// it keeps.
pub proof fn lemma_quantity_wire_round_trip(n: nat, max: nat)
    requires
        n <= max,
    ensures
        wire_quantity(quantity_wire(n), max) == Some(n),
{
    lemma_quantity_round_trip(n);
}

/// Reading a written list of quantities gives the list.
pub proof fn lemma_quantity_list_round_trip(values: Seq<u128>)
    ensures
        wire_quantity_list(quantity_list_wire(values)) == Some(values),
{
    let items = quantity_list_wire(values)->List_0;
    assert forall|i: int| 0 <= i < items.len() implies wire_quantity(
        #[trigger] items[i],
        u128::MAX as nat,
    ) == Some(values[i] as nat) by {
        lemma_quantity_round_trip(values[i] as nat);
    }
    assert(wire_quantity_list(quantity_list_wire(values))->Some_0 =~= values);
}

/// Reading a written list of lists of quantities gives the lists.
pub proof fn lemma_quantity_rows_round_trip(rows: Seq<Seq<u128>>)
    ensures
        wire_quantity_rows(quantity_rows_wire(rows)) == Some(rows),
{
    let items = quantity_rows_wire(rows)->List_0;
    assert forall|i: int| 0 <= i < items.len() implies wire_quantity_list(#[trigger] items[i])
        == Some(rows[i]) by {
        lemma_quantity_list_round_trip(rows[i]);
    }
    assert(wire_quantity_rows(quantity_rows_wire(rows))->Some_0 =~= rows);
}

/// Reading a written list of ratios gives the list, bit for bit.
pub proof fn lemma_ratio_list_round_trip(ratios: Seq<u64>)
    ensures
        wire_ratio_list(ratio_list_wire(ratios)) == Some(ratios),
{
    let items = ratio_list_wire(ratios)->List_0;
    assert forall|i: int| 0 <= i < items.len() implies wire_ratio(#[trigger] items[i]) == Some(
        ratios[i],
    ) by {}
    assert(wire_ratio_list(ratio_list_wire(ratios))->Some_0 =~= ratios);
}

} // verus!
