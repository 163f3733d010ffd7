//! The `eth_feeHistory` response: the record, the fees it yields for the
//! newest requested block and for the block after it, and its wire form.

use crate::wire::{
    lemma_quantity_list_round_trip, lemma_quantity_rows_round_trip,
    lemma_quantity_wire_round_trip, lemma_ratio_list_round_trip, quantity_list_from_wire, quantity_list_to_wire, quantity_list_wire, quantity_rows_from_wire,
    quantity_rows_to_wire, quantity_rows_wire, quantity_to_wire, quantity_wire,
    ratio_list_from_wire, ratio_list_to_wire, ratio_list_wire, u64_from_wire, wire_quantity,
    wire_quantity_list, wire_quantity_rows, wire_ratio_list, WireModel, WireValue,
};
use vstd::prelude::*;
use vstd::string::*;

verus! {

/// Response type for `eth_feeHistory`.
///
/// The two fee lists carry one entry per block of the range and one more,
/// for the block after the newest: the last entry is the next block's fee,
/// the one before it the newest requested block's.
///
/// A ratio is held as the bit pattern of its binary64 value, so two records
/// are equal when their ratios agree bit for bit.
#[derive(Clone, Debug, PartialEq, Eq)]
pub struct FeeHistory {
    /// Base fee per gas of each block, then that of the next block. Zero for
    /// a block before EIP-1559.
    pub base_fee_per_gas: Vec<u128>,
    /// `gasUsed / gasLimit` of each block.
    pub gas_used_ratio: Vec<u64>,
    /// Base fee per blob gas of each block, then that of the next block.
    /// Zero for a block before EIP-4844.
    pub base_fee_per_blob_gas: Vec<u128>,
    /// Blob gas used ratio of each block.
    pub blob_gas_used_ratio: Vec<u64>,
    /// Number of the first block of the range.
    pub oldest_block: u64,
    /// For each block, the effective priority fee at each requested
    /// percentile; absent where no percentile was requested.
    pub reward: Option<Vec<Vec<u128>>>,
}

/// What a `FeeHistory` holds, over sequences.
pub struct FeeHistoryView {
    pub base_fee_per_gas: Seq<u128>,
    pub gas_used_ratio: Seq<u64>,
    pub base_fee_per_blob_gas: Seq<u128>,
    pub blob_gas_used_ratio: Seq<u64>,
    pub oldest_block: u64,
    pub reward: Option<Seq<Seq<u128>>>,
}

impl View for FeeHistory {
    type V = FeeHistoryView;

    open spec fn view(&self) -> FeeHistoryView {
        FeeHistoryView {
            base_fee_per_gas: self.base_fee_per_gas@,
            gas_used_ratio: self.gas_used_ratio@,
            base_fee_per_blob_gas: self.base_fee_per_blob_gas@,
            blob_gas_used_ratio: self.blob_gas_used_ratio@,
            oldest_block: self.oldest_block,
            reward: match self.reward {
                Some(rows) => Some(rows.deep_view()),
                None => None,
            },
        }
    }
}

impl FeeHistoryView {
    /// The record of an empty range.
    pub open spec fn empty() -> FeeHistoryView {
        FeeHistoryView {
            base_fee_per_gas: Seq::empty(),
            gas_used_ratio: Seq::empty(),
            base_fee_per_blob_gas: Seq::empty(),
            blob_gas_used_ratio: Seq::empty(),
            oldest_block: 0,
            reward: None,
        }
    }

    /// The lengths that a producer keeps in step: a fee list, where it and
    /// its ratios are there, is one longer than the ratios; the rewards have
    /// one row per block, and every row as many entries as the others.
    pub open spec fn lengths_agree(self) -> bool {
        &&& self.base_fee_per_gas.len() > 0 && self.gas_used_ratio.len() > 0
            ==> self.base_fee_per_gas.len() == self.gas_used_ratio.len() + 1
        &&& self.base_fee_per_blob_gas.len() > 0 && self.blob_gas_used_ratio.len() > 0
            ==> self.base_fee_per_blob_gas.len() == self.blob_gas_used_ratio.len() + 1
        &&& self.reward matches Some(rows) ==> {
            &&& rows.len() == self.gas_used_ratio.len()
            &&& forall|i: int, j: int|
                0 <= i < rows.len() && 0 <= j < rows.len() ==> (#[trigger] rows[i]).len() == (
                #[trigger] rows[j]).len()
        }
    }
}

/// The last entry of a fee list: the next block's fee.
pub open spec fn last_entry(fees: Seq<u128>) -> Option<u128> {
    if fees.len() >= 1 {
        Some(fees[fees.len() - 1])
    } else {
        None
    }
}

/// The entry before the last of a fee list: the newest requested block's
/// fee.
pub open spec fn entry_before_last(fees: Seq<u128>) -> Option<u128> {
    if fees.len() >= 2 {
        Some(fees[fees.len() - 2])
    } else {
        None
    }
}

/// A fee with the zero that stands for "no such fee yet" taken out.
pub open spec fn non_zero(fee: Option<u128>) -> Option<u128> {
    match fee {
        Some(x) => if x == 0 {
            None
        } else {
            Some(x)
        },
        None => None,
    }
}

impl Default for FeeHistory {
    /// The record of an empty range: no entries, block zero, no rewards.
    fn default() -> (r: FeeHistory)
        ensures
            r@ == FeeHistoryView::empty(),
            r@.lengths_agree(),
    {
        FeeHistory {
            base_fee_per_gas: Vec::new(),
            gas_used_ratio: Vec::new(),
            base_fee_per_blob_gas: Vec::new(),
            blob_gas_used_ratio: Vec::new(),
            oldest_block: 0,
            reward: None,
        }
    }
}

impl FeeHistory {
    /// Tells whether the lengths of the record agree: whether it is one
    /// that a producer hands out.
    #[verifier::loop_isolation(false)]
    pub fn lengths_agree(&self) -> (ok: bool)
        ensures
            ok == self@.lengths_agree(),
    {
        let fees = self.base_fee_per_gas.len();
        let ratios = self.gas_used_ratio.len();
        if fees > 0 && ratios > 0 && fees - 1 != ratios {
            return false;
        }
        let blob_fees = self.base_fee_per_blob_gas.len();
        let blob_ratios = self.blob_gas_used_ratio.len();
        if blob_fees > 0 && blob_ratios > 0 && blob_fees - 1 != blob_ratios {
            return false;
        }
        match &self.reward {
            None => true,
            Some(rows) => {
                let ghost deep = rows.deep_view();
                assert forall|k: int| 0 <= k < deep.len() implies (#[trigger] deep[k]).len()
                    == rows@[k]@.len() by {
                    assert(rows@[k].deep_view() =~= rows@[k]@);
                }
                if rows.len() != ratios {
                    return false;
                }
                let mut i: usize = 1;
                while i < rows.len()
                    invariant
                        1 <= i,
                        forall|k: int|
                            0 <= k < i && k < deep.len() ==> (#[trigger] deep[k]).len()
                                == deep[0].len(),
                    decreases rows.len() - i,
                {
                    if rows[i].len() != rows[0].len() {
                        assert(deep[i as int].len() != deep[0].len());
                        return false;
                    }
                    i = i + 1;
                }
                true
            },
        }
    }

    /// Returns the base fee of the newest requested block: the entry before
    /// the last, where there are two entries or more.
    pub fn latest_block_base_fee(&self) -> (fee: Option<u128>)
        ensures
            fee == entry_before_last(self@.base_fee_per_gas),
    {
        let n = self.base_fee_per_gas.len();
        if n >= 2 {
            Some(self.base_fee_per_gas[n - 2])
        } else {
            None
        }
    }

    /// Returns the base fee of the next block: the last entry, where there
    /// is one.
    pub fn next_block_base_fee(&self) -> (fee: Option<u128>)
        ensures
            fee == last_entry(self@.base_fee_per_gas),
    {
        let n = self.base_fee_per_gas.len();
        if n >= 1 {
            Some(self.base_fee_per_gas[n - 1])
        } else {
            None
        }
    }

    /// Returns the blob base fee of the next block, and `None` where the
    /// last entry is the zero of a block before EIP-4844.
    pub fn next_block_blob_base_fee(&self) -> (fee: Option<u128>)
        ensures
            fee == non_zero(last_entry(self@.base_fee_per_blob_gas)),
            last_entry(self@.base_fee_per_blob_gas) == Some(0u128) ==> fee is None,
            fee matches Some(x) ==> x != 0,
    {
        let n = self.base_fee_per_blob_gas.len();
        if n >= 1 && self.base_fee_per_blob_gas[n - 1] != 0 {
            Some(self.base_fee_per_blob_gas[n - 1])
        } else {
            None
        }
    }

    /// Returns the blob base fee of the newest requested block, and `None`
    /// where that entry is the zero of a block before EIP-4844.
    pub fn latest_block_blob_base_fee(&self) -> (fee: Option<u128>)
        ensures
            fee == non_zero(entry_before_last(self@.base_fee_per_blob_gas)),
            entry_before_last(self@.base_fee_per_blob_gas) == Some(0u128) ==> fee is None,
            fee matches Some(x) ==> x != 0,
    {
        let n = self.base_fee_per_blob_gas.len();
        if n >= 2 && self.base_fee_per_blob_gas[n - 2] != 0 {
            Some(self.base_fee_per_blob_gas[n - 2])
        } else {
            None
        }
    }
}

/// Of two entries the first is the newest requested block's and the second
/// the next block's; a single entry is the next block's, and then there is
/// none for the newest requested block; no entry gives neither.
pub proof fn lemma_last_two_entries(a: u128, b: u128)
    ensures
        entry_before_last(seq![a, b]) == Some(a),
        last_entry(seq![a, b]) == Some(b),
        entry_before_last(seq![a]) == None::<u128>,
        last_entry(seq![a]) == Some(a),
        entry_before_last(Seq::<u128>::empty()) == None::<u128>,
        last_entry(Seq::<u128>::empty()) == None::<u128>,
{
}

/// In a record whose lengths agree and whose range is not empty, the entry
/// before the last of a fee list is the entry of the last block that has a
/// ratio, and the last entry lies one past the ratios.
pub proof fn lemma_latest_is_newest_requested(v: FeeHistoryView)
    requires
        v.lengths_agree(),
        v.gas_used_ratio.len() > 0,
        v.base_fee_per_gas.len() > 0,
    ensures
        entry_before_last(v.base_fee_per_gas) == Some(
            v.base_fee_per_gas[v.gas_used_ratio.len() - 1],
        ),
        last_entry(v.base_fee_per_gas) == Some(v.base_fee_per_gas[v.gas_used_ratio.len() as int]),
{
}

/// A field of the record, in the order in which the wire form lists them.
#[derive(Clone, Copy, Debug, PartialEq, Eq, Structural)]
pub enum Field {
    BaseFeePerGas,
    GasUsedRatio,
    BaseFeePerBlobGas,
    BlobGasUsedRatio,
    OldestBlock,
    Reward,
}

impl Field {
    /// The name of the field on the wire, in lower camel case.
    pub open spec fn name(self) -> Seq<char> {
        match self {
            Field::BaseFeePerGas => "baseFeePerGas"@,
            Field::GasUsedRatio => "gasUsedRatio"@,
            Field::BaseFeePerBlobGas => "baseFeePerBlobGas"@,
            Field::BlobGasUsedRatio => "blobGasUsedRatio"@,
            Field::OldestBlock => "oldestBlock"@,
            Field::Reward => "reward"@,
        }
    }

    /// The field's place in the wire form, from zero.
    pub open spec fn place(self) -> int {
        match self {
            Field::BaseFeePerGas => 0,
            Field::GasUsedRatio => 1,
            Field::BaseFeePerBlobGas => 2,
            Field::BlobGasUsedRatio => 3,
            Field::OldestBlock => 4,
            Field::Reward => 5,
        }
    }

    /// The field at a place.
    pub open spec fn at(place: int) -> Field {
        if place <= 0 {
            Field::BaseFeePerGas
        } else if place == 1 {
            Field::GasUsedRatio
        } else if place == 2 {
            Field::BaseFeePerBlobGas
        } else if place == 3 {
            Field::BlobGasUsedRatio
        } else if place == 4 {
            Field::OldestBlock
        } else {
            Field::Reward
        }
    }

    /// Returns the name of the field on the wire.
    pub fn wire_name(self) -> (name: &'static str)
        ensures
            name@ == self.name(),
    {
        match self {
            Field::BaseFeePerGas => "baseFeePerGas",
            Field::GasUsedRatio => "gasUsedRatio",
            Field::BaseFeePerBlobGas => "baseFeePerBlobGas",
            Field::BlobGasUsedRatio => "blobGasUsedRatio",
            Field::OldestBlock => "oldestBlock",
            Field::Reward => "reward",
        }
    }
}

/// Whether the wire form of `v` lists the field: a fee list or the blob
/// ratios only where they have an entry, the rewards only where they are
/// there, the gas ratios and the oldest block always.
pub open spec fn emitted(v: FeeHistoryView, f: Field) -> bool {
    match f {
        Field::BaseFeePerGas => v.base_fee_per_gas.len() > 0,
        Field::GasUsedRatio => true,
        Field::BaseFeePerBlobGas => v.base_fee_per_blob_gas.len() > 0,
        Field::BlobGasUsedRatio => v.blob_gas_used_ratio.len() > 0,
        Field::OldestBlock => true,
        Field::Reward => v.reward is Some,
    }
}

/// The wire value of a field of `v`.
pub open spec fn field_wire(v: FeeHistoryView, f: Field) -> WireModel {
    match f {
        Field::BaseFeePerGas => quantity_list_wire(v.base_fee_per_gas),
        Field::GasUsedRatio => ratio_list_wire(v.gas_used_ratio),
        Field::BaseFeePerBlobGas => quantity_list_wire(v.base_fee_per_blob_gas),
        Field::BlobGasUsedRatio => ratio_list_wire(v.blob_gas_used_ratio),
        Field::OldestBlock => quantity_wire(v.oldest_block as nat),
        Field::Reward => match v.reward {
            Some(rows) => quantity_rows_wire(rows),
            None => WireModel::Null,
        },
    }
}

/// The members that the fields at the first `places` places give: each
/// emitted field's name and wire value, in the order of the places.
pub open spec fn members_through(v: FeeHistoryView, places: int) -> Seq<(Seq<char>, WireModel)>
    decreases places,
{
    if places <= 0 {
        Seq::empty()
    } else {
        let before = members_through(v, places - 1);
        let f = Field::at(places - 1);
        if emitted(v, f) {
            before.push((f.name(), field_wire(v, f)))
        } else {
            before
        }
    }
}

/// The wire form of a record: an object of its emitted fields.
pub open spec fn wire_form(v: FeeHistoryView) -> WireModel {
    WireModel::Object(members_through(v, 6))
}

/// What a list of members stands for.
pub open spec fn members_model(members: Seq<(String, WireValue)>) -> Seq<(Seq<char>, WireModel)> {
    Seq::new(members.len(), |i: int| (members[i].0@, members[i].1@))
}

impl FeeHistory {
    /// Writes the record in its wire form.
    pub fn to_wire(&self) -> (w: WireValue)
        ensures
            w@ == wire_form(self@),
    {
        let ghost v = self@;
        let mut members: Vec<(String, WireValue)> = Vec::new();
        assert(members_model(members@) =~= members_through(v, 0));
        if self.base_fee_per_gas.len() > 0 {
            let name = String::from_str(Field::BaseFeePerGas.wire_name());
            members.push((name, quantity_list_to_wire(&self.base_fee_per_gas)));
        }
        assert(members_model(members@) =~= members_through(v, 1));
        let name = String::from_str(Field::GasUsedRatio.wire_name());
        members.push((name, ratio_list_to_wire(&self.gas_used_ratio)));
        assert(members_model(members@) =~= members_through(v, 2));
        if self.base_fee_per_blob_gas.len() > 0 {
            let name = String::from_str(Field::BaseFeePerBlobGas.wire_name());
            members.push((name, quantity_list_to_wire(&self.base_fee_per_blob_gas)));
        }
        assert(members_model(members@) =~= members_through(v, 3));
        if self.blob_gas_used_ratio.len() > 0 {
            let name = String::from_str(Field::BlobGasUsedRatio.wire_name());
            members.push((name, ratio_list_to_wire(&self.blob_gas_used_ratio)));
        }
        assert(members_model(members@) =~= members_through(v, 4));
        let name = String::from_str(Field::OldestBlock.wire_name());
        members.push((name, quantity_to_wire(self.oldest_block as u128)));
        assert(members_model(members@) =~= members_through(v, 5));
        match &self.reward {
            Some(rows) => {
                let name = String::from_str(Field::Reward.wire_name());
                members.push((name, quantity_rows_to_wire(rows)));
            },
            None => {},
        }
        assert(members_model(members@) =~= members_through(v, 6));
        let w = WireValue::Object(members);
        assert(w@->Object_0 =~= members_through(v, 6));
        w
    }
}

/// Why a document is no fee history.
#[derive(Clone, Copy, Debug, PartialEq, Eq, Structural)]
pub enum WireError {
    /// The document is not an object.
    NotAnObject,
    /// A second member carries the name of the field.
    Duplicate(Field),
    /// The member of that name holds no value of the field's shape.
    Invalid(Field),
    /// No member carries the name of the field, and the field has no
    /// default.
    Missing(Field),
}

/// The field that a member's name stands for, if any.
pub open spec fn field_named(key: Seq<char>) -> Option<Field> {
    if key == Field::BaseFeePerGas.name() {
        Some(Field::BaseFeePerGas)
    } else if key == Field::GasUsedRatio.name() {
        Some(Field::GasUsedRatio)
    } else if key == Field::BaseFeePerBlobGas.name() {
        Some(Field::BaseFeePerBlobGas)
    } else if key == Field::BlobGasUsedRatio.name() {
        Some(Field::BlobGasUsedRatio)
    } else if key == Field::OldestBlock.name() {
        Some(Field::OldestBlock)
    } else if key == Field::Reward.name() {
        Some(Field::Reward)
    } else {
        None
    }
}

/// Whether a wire value has the shape of the field: a list of quantities
/// for a fee list, a list of numbers for ratios, a 64-bit quantity for the
/// oldest block, and for the rewards a list of lists of quantities or the
/// absent value.
pub open spec fn accepted(f: Field, w: WireModel) -> bool {
    match f {
        Field::BaseFeePerGas => wire_quantity_list(w) is Some,
        Field::GasUsedRatio => wire_ratio_list(w) is Some,
        Field::BaseFeePerBlobGas => wire_quantity_list(w) is Some,
        Field::BlobGasUsedRatio => wire_ratio_list(w) is Some,
        Field::OldestBlock => wire_quantity(w, u64::MAX as nat) is Some,
        Field::Reward => w is Null || wire_quantity_rows(w) is Some,
    }
}

/// The value of the last member named `key`, if there is one.
pub open spec fn member_value(members: Seq<(Seq<char>, WireModel)>, key: Seq<char>) -> Option<
    WireModel,
>
    decreases members.len(),
{
    if members.len() == 0 {
        None
    } else if members.last().0 == key {
        Some(members.last().1)
    } else {
        member_value(members.drop_last(), key)
    }
}

/// What is wrong with the member at `i`, if anything: it names a field
/// that an earlier member names already, or it names a field and holds no
/// value of that field's shape. A member that names no field is passed over.
pub open spec fn member_fault(members: Seq<(Seq<char>, WireModel)>, i: int) -> Option<WireError> {
    match field_named(members[i].0) {
        None => None,
        Some(f) => if member_value(members.take(i), members[i].0) is Some {
            Some(WireError::Duplicate(f))
        } else if !accepted(f, members[i].1) {
            Some(WireError::Invalid(f))
        } else {
            None
        },
    }
}

/// The fault of the earliest faulty member among the first `n`.
pub open spec fn first_fault(members: Seq<(Seq<char>, WireModel)>, n: int) -> Option<WireError>
    decreases n,
{
    if n <= 0 {
        None
    } else {
        match first_fault(members, n - 1) {
            Some(e) => Some(e),
            None => member_fault(members, n - 1),
        }
    }
}

/// The record that faultless members give: each field from the member of
/// its name, and where there is none, empty lists, block zero, no rewards.
pub open spec fn record_of(members: Seq<(Seq<char>, WireModel)>) -> FeeHistoryView {
    FeeHistoryView {
        base_fee_per_gas: match member_value(members, Field::BaseFeePerGas.name()) {
            Some(w) => wire_quantity_list(w).unwrap(),
            None => Seq::empty(),
        },
        gas_used_ratio: match member_value(members, Field::GasUsedRatio.name()) {
            Some(w) => wire_ratio_list(w).unwrap(),
            None => Seq::empty(),
        },
        base_fee_per_blob_gas: match member_value(members, Field::BaseFeePerBlobGas.name()) {
            Some(w) => wire_quantity_list(w).unwrap(),
            None => Seq::empty(),
        },
        blob_gas_used_ratio: match member_value(members, Field::BlobGasUsedRatio.name()) {
            Some(w) => wire_ratio_list(w).unwrap(),
            None => Seq::empty(),
        },
        oldest_block: match member_value(members, Field::OldestBlock.name()) {
            Some(w) => wire_quantity(w, u64::MAX as nat).unwrap() as u64,
            None => 0,
        },
        reward: match member_value(members, Field::Reward.name()) {
            Some(w) => wire_quantity_rows(w),
            None => None,
        },
    }
}

/// What reading a document gives: the fault of its earliest faulty member;
/// else, where no member gives the gas ratios, that they are missing; else
/// the record of its members.
pub open spec fn read_form(w: WireModel) -> Result<FeeHistoryView, WireError> {
    match w {
        WireModel::Object(members) => match first_fault(members, members.len() as int) {
            Some(e) => Err(e),
            None => if member_value(members, Field::GasUsedRatio.name()) is None {
                Err(WireError::Missing(Field::GasUsedRatio))
            } else {
                Ok(record_of(members))
            },
        },
        _ => Err(WireError::NotAnObject),
    }
}

/// No two fields share a name, and each name stands for its field.
pub proof fn lemma_names_distinct()
    ensures
        forall|f: Field, g: Field| #[trigger] f.name() == #[trigger] g.name() ==> f == g,
        forall|f: Field| field_named(#[trigger] f.name()) == Some(f),
{
    reveal_strlit("baseFeePerGas");
    reveal_strlit("gasUsedRatio");
    reveal_strlit("baseFeePerBlobGas");
    reveal_strlit("blobGasUsedRatio");
    reveal_strlit("oldestBlock");
    reveal_strlit("reward");
    assert forall|f: Field, g: Field| #[trigger] f.name() == #[trigger] g.name() implies f == g by {
        assert(f.name().len() == g.name().len());
    }
    assert forall|f: Field| field_named(#[trigger] f.name()) == Some(f) by {
        assert(f.name().len() == f.name().len());
    }
}

/// A fault found among the first `a` members is the fault of every longer
/// run.
proof fn lemma_first_fault_stays(members: Seq<(Seq<char>, WireModel)>, a: int, b: int)
    requires
        a <= b,
        first_fault(members, a) is Some,
    ensures
        first_fault(members, b) == first_fault(members, a),
    decreases b - a,
{
    if a < b {
        lemma_first_fault_stays(members, a, b - 1);
    }
}

impl Field {
    /// Returns the field that `key` names on the wire, if any.
    pub fn from_wire_name(key: &str) -> (f: Option<Field>)
        ensures
            f == field_named(key@),
    {
        let key = String::from_str(key);
        if key == String::from_str(Field::BaseFeePerGas.wire_name()) {
            Some(Field::BaseFeePerGas)
        } else if key == String::from_str(Field::GasUsedRatio.wire_name()) {
            Some(Field::GasUsedRatio)
        } else if key == String::from_str(Field::BaseFeePerBlobGas.wire_name()) {
            Some(Field::BaseFeePerBlobGas)
        } else if key == String::from_str(Field::BlobGasUsedRatio.wire_name()) {
            Some(Field::BlobGasUsedRatio)
        } else if key == String::from_str(Field::OldestBlock.wire_name()) {
            Some(Field::OldestBlock)
        } else if key == String::from_str(Field::Reward.wire_name()) {
            Some(Field::Reward)
        } else {
            None
        }
    }
}

/// A filled slot holds what the member found under its name reads as; an
/// empty one says that no member was found.
spec fn list_slot(slot: Option<Vec<u128>>, found: Option<WireModel>) -> bool {
    match slot {
        Some(values) => found matches Some(w) && wire_quantity_list(w) == Some(values@),
        None => found is None,
    }
}

spec fn ratio_slot(slot: Option<Vec<u64>>, found: Option<WireModel>) -> bool {
    match slot {
        Some(ratios) => found matches Some(w) && wire_ratio_list(w) == Some(ratios@),
        None => found is None,
    }
}

spec fn block_slot(slot: Option<u64>, found: Option<WireModel>) -> bool {
    match slot {
        Some(block) => found matches Some(w) && wire_quantity(w, u64::MAX as nat) == Some(
            block as nat,
        ),
        None => found is None,
    }
}

spec fn reward_slot(slot: Option<Option<Vec<Vec<u128>>>>, found: Option<WireModel>) -> bool {
    match slot {
        Some(Some(rows)) => found matches Some(w) && wire_quantity_rows(w) == Some(
            rows.deep_view(),
        ),
        Some(None) => found matches Some(w) && wire_quantity_rows(w) is None,
        None => found is None,
    }
}

impl FeeHistory {
    /// Reads a record from its wire form.
    ///
    /// The members may come in any order, and a member that names no field
    /// is passed over. The gas ratios must be there; every other field
    /// defaults.
    pub fn from_wire(w: &WireValue) -> (r: Result<FeeHistory, WireError>)
        ensures
            match r {
                Ok(record) => read_form(w@) == Ok::<FeeHistoryView, WireError>(record@),
                Err(e) => read_form(w@) == Err::<FeeHistoryView, WireError>(e),
            },
    {
        let members = match w {
            WireValue::Object(members) => members,
            _ => {
                return Err(WireError::NotAnObject);
            },
        };
        let ghost ms = members_model(members@);
        assert(w@->Object_0 =~= ms);
        let mut base_fee: Option<Vec<u128>> = None;
        let mut gas_ratio: Option<Vec<u64>> = None;
        let mut blob_fee: Option<Vec<u128>> = None;
        let mut blob_ratio: Option<Vec<u64>> = None;
        let mut oldest: Option<u64> = None;
        let mut reward: Option<Option<Vec<Vec<u128>>>> = None;
        let mut i: usize = 0;
        while i < members.len()
            invariant
                i <= members.len(),
                ms == members_model(members@),
                w@ == WireModel::Object(ms),
                first_fault(ms, i as int) is None,
                list_slot(base_fee, member_value(ms.take(i as int), Field::BaseFeePerGas.name())),
                ratio_slot(gas_ratio, member_value(ms.take(i as int), Field::GasUsedRatio.name())),
                list_slot(
                    blob_fee,
                    member_value(ms.take(i as int), Field::BaseFeePerBlobGas.name()),
                ),
                ratio_slot(
                    blob_ratio,
                    member_value(ms.take(i as int), Field::BlobGasUsedRatio.name()),
                ),
                block_slot(oldest, member_value(ms.take(i as int), Field::OldestBlock.name())),
                reward_slot(reward, member_value(ms.take(i as int), Field::Reward.name())),
            decreases members.len() - i,
        {
            proof {
                lemma_names_distinct();
                assert(ms.take(i + 1).drop_last() =~= ms.take(i as int));
                assert(ms.take(i + 1).last() == ms[i as int]);
                assert(ms[i as int] == (members@[i as int].0@, members@[i as int].1@));
            }
            let value = &members[i].1;
            let fault: Option<WireError> = match Field::from_wire_name(members[i].0.as_str()) {
                None => None,
                Some(Field::BaseFeePerGas) => if base_fee.is_some() {
                    Some(WireError::Duplicate(Field::BaseFeePerGas))
                } else {
                    base_fee = quantity_list_from_wire(value);
                    if base_fee.is_none() {
                        Some(WireError::Invalid(Field::BaseFeePerGas))
                    } else {
                        None
                    }
                },
                Some(Field::GasUsedRatio) => if gas_ratio.is_some() {
                    Some(WireError::Duplicate(Field::GasUsedRatio))
                } else {
                    gas_ratio = ratio_list_from_wire(value);
                    if gas_ratio.is_none() {
                        Some(WireError::Invalid(Field::GasUsedRatio))
                    } else {
                        None
                    }
                },
                Some(Field::BaseFeePerBlobGas) => if blob_fee.is_some() {
                    Some(WireError::Duplicate(Field::BaseFeePerBlobGas))
                } else {
                    blob_fee = quantity_list_from_wire(value);
                    if blob_fee.is_none() {
                        Some(WireError::Invalid(Field::BaseFeePerBlobGas))
                    } else {
                        None
                    }
                },
                Some(Field::BlobGasUsedRatio) => if blob_ratio.is_some() {
                    Some(WireError::Duplicate(Field::BlobGasUsedRatio))
                } else {
                    blob_ratio = ratio_list_from_wire(value);
                    if blob_ratio.is_none() {
                        Some(WireError::Invalid(Field::BlobGasUsedRatio))
                    } else {
                        None
                    }
                },
                Some(Field::OldestBlock) => if oldest.is_some() {
                    Some(WireError::Duplicate(Field::OldestBlock))
                } else {
                    oldest = u64_from_wire(value);
                    if oldest.is_none() {
                        Some(WireError::Invalid(Field::OldestBlock))
                    } else {
                        None
                    }
                },
                Some(Field::Reward) => if reward.is_some() {
                    Some(WireError::Duplicate(Field::Reward))
                } else {
                    match value {
                        WireValue::Null => {
                            reward = Some(None);
                            None
                        },
                        _ => match quantity_rows_from_wire(value) {
                            Some(rows) => {
                                reward = Some(Some(rows));
                                None
                            },
                            None => Some(WireError::Invalid(Field::Reward)),
                        },
                    }
                },
            };
            assert(fault == member_fault(ms, i as int));
            if let Some(e) = fault {
                proof {
                    lemma_first_fault_stays(ms, i + 1, ms.len() as int);
                }
                return Err(e);
            }
            i = i + 1;
        }
        assert(ms.take(i as int) =~= ms);
        let gas_used_ratio = match gas_ratio {
            Some(ratios) => ratios,
            None => {
                return Err(WireError::Missing(Field::GasUsedRatio));
            },
        };
        let record = FeeHistory {
            base_fee_per_gas: match base_fee {
                Some(values) => values,
                None => Vec::new(),
            },
            gas_used_ratio,
            base_fee_per_blob_gas: match blob_fee {
                Some(values) => values,
                None => Vec::new(),
            },
            blob_gas_used_ratio: match blob_ratio {
                Some(ratios) => ratios,
                None => Vec::new(),
            },
            oldest_block: match oldest {
                Some(block) => block,
                None => 0,
            },
            reward: match reward {
                Some(rows) => rows,
                None => None,
            },
        };
        proof {
            let got = record@;
            let want = record_of(ms);
            assert(got.base_fee_per_gas =~= want.base_fee_per_gas);
            assert(got.gas_used_ratio =~= want.gas_used_ratio);
            assert(got.base_fee_per_blob_gas =~= want.base_fee_per_blob_gas);
            assert(got.blob_gas_used_ratio =~= want.blob_gas_used_ratio);
            assert(got.oldest_block == want.oldest_block);
            assert(got.reward == want.reward);
        }
        Ok(record)
    }
}

/// The wire value of an emitted field has the field's shape.
proof fn lemma_field_wire_accepted(v: FeeHistoryView, f: Field)
    requires
        emitted(v, f),
    ensures
        accepted(f, field_wire(v, f)),
{
    lemma_quantity_list_round_trip(v.base_fee_per_gas);
    lemma_quantity_list_round_trip(v.base_fee_per_blob_gas);
    lemma_ratio_list_round_trip(v.gas_used_ratio);
    lemma_ratio_list_round_trip(v.blob_gas_used_ratio);
    lemma_quantity_wire_round_trip(v.oldest_block as nat, u64::MAX as nat);
    if v.reward is Some {
        lemma_quantity_rows_round_trip(v.reward->Some_0);
    }
}

/// A member added at the end changes no fault before it.
proof fn lemma_first_fault_push(
    members: Seq<(Seq<char>, WireModel)>,
    last: (Seq<char>, WireModel),
    n: int,
)
    requires
        n <= members.len(),
    ensures
        first_fault(members.push(last), n) == first_fault(members, n),
    decreases n,
{
    if n > 0 {
        lemma_first_fault_push(members, last, n - 1);
        assert(members.push(last).take(n - 1) =~= members.take(n - 1));
    }
}

/// The members that the first `places` places give hold no fault, and under
/// each name what the field of that name gives, where it is among those
/// places and emitted.
proof fn lemma_members_through(v: FeeHistoryView, places: int)
    requires
        0 <= places <= 6,
    ensures
        first_fault(members_through(v, places), members_through(v, places).len() as int) is None,
        forall|f: Field|
            member_value(members_through(v, places), #[trigger] f.name()) == (if f.place() < places
                && emitted(v, f) {
                Some(field_wire(v, f))
            } else {
                None
            }),
    decreases places,
{
    lemma_names_distinct();
    if places > 0 {
        lemma_members_through(v, places - 1);
        let before = members_through(v, places - 1);
        let g = Field::at(places - 1);
        assert(g.place() == places - 1);
        if emitted(v, g) {
            let last = (g.name(), field_wire(v, g));
            let all = before.push(last);
            assert(all.drop_last() =~= before);
            assert(all.take(before.len() as int) =~= before);
            lemma_first_fault_push(before, last, before.len() as int);
            lemma_field_wire_accepted(v, g);
            assert(member_fault(all, before.len() as int) is None);
            assert forall|f: Field|
                member_value(all, #[trigger] f.name()) == (if f.place() < places && emitted(v, f) {
                    Some(field_wire(v, f))
                } else {
                    None
                }) by {
                if f != g {
                    assert(f.name() != g.name());
                }
            }
        } else {
            assert forall|f: Field|
                member_value(before, #[trigger] f.name()) == (if f.place() < places && emitted(
                    v,
                    f,
                ) {
                    Some(field_wire(v, f))
                } else {
                    None
                }) by {}
        }
    }
}

/// The wire form lists a field exactly where the field is emitted, and
/// then with the field's wire value: an empty fee list, empty blob ratios
/// and absent rewards leave no member behind, while the gas ratios and the
/// oldest block are always there.
pub proof fn lemma_wire_form_members(v: FeeHistoryView, f: Field)
    ensures
        wire_form(v) is Object,
        member_value(wire_form(v)->Object_0, f.name()) == (if emitted(v, f) {
            Some(field_wire(v, f))
        } else {
            None
        }),
{
    lemma_members_through(v, 6);
}

/// Empty gas ratios are written as an empty list, and an empty list of
/// base fees is not written at all.
pub proof fn lemma_empty_lists_on_the_wire(v: FeeHistoryView)
    ensures
        v.gas_used_ratio.len() == 0 ==> member_value(
            wire_form(v)->Object_0,
            Field::GasUsedRatio.name(),
        ) == Some(WireModel::List(Seq::empty())),
        v.base_fee_per_gas.len() == 0 ==> member_value(
            wire_form(v)->Object_0,
            Field::BaseFeePerGas.name(),
        ) is None,
{
    lemma_wire_form_members(v, Field::GasUsedRatio);
    lemma_wire_form_members(v, Field::BaseFeePerGas);
    if v.gas_used_ratio.len() == 0 {
        assert(ratio_list_wire(v.gas_used_ratio)->List_0 =~= Seq::<WireModel>::empty());
    }
}

/// Reading the wire form of a record gives the record.
pub proof fn lemma_round_trip(v: FeeHistoryView)
    ensures
        read_form(wire_form(v)) == Ok::<FeeHistoryView, WireError>(v),
{
    let members = members_through(v, 6);
    lemma_members_through(v, 6);
    lemma_quantity_list_round_trip(v.base_fee_per_gas);
    lemma_quantity_list_round_trip(v.base_fee_per_blob_gas);
    lemma_ratio_list_round_trip(v.gas_used_ratio);
    lemma_ratio_list_round_trip(v.blob_gas_used_ratio);
    lemma_quantity_wire_round_trip(v.oldest_block as nat, u64::MAX as nat);
    if v.reward is Some {
        lemma_quantity_rows_round_trip(v.reward->Some_0);
    }
    let got = record_of(members);
    assert(member_value(members, Field::BaseFeePerGas.name()) == (if emitted(
        v,
        Field::BaseFeePerGas,
    ) {
        Some(field_wire(v, Field::BaseFeePerGas))
    } else {
        None
    }));
    assert(member_value(members, Field::GasUsedRatio.name()) == Some(
        field_wire(v, Field::GasUsedRatio),
    ));
    assert(member_value(members, Field::BaseFeePerBlobGas.name()) == (if emitted(
        v,
        Field::BaseFeePerBlobGas,
    ) {
        Some(field_wire(v, Field::BaseFeePerBlobGas))
    } else {
        None
    }));
    assert(member_value(members, Field::BlobGasUsedRatio.name()) == (if emitted(
        v,
        Field::BlobGasUsedRatio,
    ) {
        Some(field_wire(v, Field::BlobGasUsedRatio))
    } else {
        None
    }));
    assert(member_value(members, Field::OldestBlock.name()) == Some(
        field_wire(v, Field::OldestBlock),
    ));
    assert(member_value(members, Field::Reward.name()) == (if emitted(v, Field::Reward) {
        Some(field_wire(v, Field::Reward))
    } else {
        None
    }));
    assert(got.base_fee_per_gas =~= v.base_fee_per_gas);
    assert(got.gas_used_ratio =~= v.gas_used_ratio);
    assert(got.base_fee_per_blob_gas =~= v.base_fee_per_blob_gas);
    assert(got.blob_gas_used_ratio =~= v.blob_gas_used_ratio);
    assert(got.oldest_block == v.oldest_block);
    assert(got.reward == v.reward);
}

} // verus!
