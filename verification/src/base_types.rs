//! Identifiers, versions and objects.
use std::sync::Arc;

use vstd::bytes::u64_to_le_bytes;
use vstd::prelude::*;

verus! {

/// A 256-bit object identifier: the values of its first and of its last
/// sixteen bytes, most significant byte first.
pub type ObjectID = (u128, u128);

/// A 256-bit transaction digest, held like an [`ObjectID`].
pub type TransactionDigest = (u128, u128);

/// A 256-bit account address, held like an [`ObjectID`].
pub type SuiAddress = (u128, u128);

/// The version of an object.
pub type SequenceNumber = u64;

/// An object at a version.
pub type StateKey = (ObjectID, SequenceNumber);

/// The identity of a proxy.
pub type ProxyId = usize;

/// The position of a proxy among the proxies that are in service.
pub type ExecutorIndex = usize;

/// The version that every shared object starts from.
pub const INITIAL_VERSION: SequenceNumber = 2;

/// The number of bytes of an identifier.
pub const OBJECT_ID_LENGTH: usize = 32;

/// The value of a sequence of bytes, most significant byte first.
pub open spec fn be_value(s: Seq<u8>) -> nat
    decreases s.len(),
{
    if s.len() == 0 {
        0
    } else {
        be_value(s.drop_last()) * 256 + s.last() as nat
    }
}

/// The identifier that 32 bytes spell.
pub open spec fn id_of_bytes(s: Seq<u8>) -> ObjectID {
    (be_value(s.subrange(0, 16)) as u128, be_value(s.subrange(16, 32)) as u128)
}

spec fn pow256(n: nat) -> nat
    decreases n,
{
    if n == 0 {
        1
    } else {
        256 * pow256((n - 1) as nat)
    }
}

proof fn lemma_be_value_bound(s: Seq<u8>)
    ensures
        be_value(s) < pow256(s.len()),
    decreases s.len(),
{
    if s.len() > 0 {
        lemma_be_value_bound(s.drop_last());
    }
}

proof fn lemma_pow256_monotone(m: nat, n: nat)
    requires
        m <= n,
    ensures
        1 <= pow256(m) <= pow256(n),
    decreases n,
{
    if n > 0 {
        if m < n {
            lemma_pow256_monotone(m, (n - 1) as nat);
        } else {
            lemma_pow256_monotone((m - 1) as nat, (n - 1) as nat);
        }
    }
}

proof fn lemma_sixteen_bytes_fit(s: Seq<u8>)
    requires
        s.len() <= 16,
    ensures
        be_value(s) <= u128::MAX,
{
    lemma_be_value_bound(s);
    lemma_pow256_monotone(s.len(), 16);
    assert(pow256(16) == 0x1_0000_0000_0000_0000_0000_0000_0000_0000int) by {
        reveal_with_fuel(pow256, 17);
    }
}

proof fn lemma_be_value_injective(a: Seq<u8>, b: Seq<u8>)
    requires
        a.len() == b.len(),
        be_value(a) == be_value(b),
    ensures
        a =~= b,
    decreases a.len(),
{
    if a.len() > 0 {
        assert(a.last() == b.last() && be_value(a.drop_last()) == be_value(b.drop_last()));
        lemma_be_value_injective(a.drop_last(), b.drop_last());
        assert(a =~= a.drop_last().push(a.last()));
        assert(b =~= b.drop_last().push(b.last()));
    }
}

/// Different bytes spell different identifiers.
pub proof fn law_identifier_tells_bytes_apart(a: Seq<u8>, b: Seq<u8>)
    requires
        a.len() == 32,
        b.len() == 32,
    ensures
        id_of_bytes(a) == id_of_bytes(b) <==> a =~= b,
{
    if id_of_bytes(a) == id_of_bytes(b) {
        lemma_sixteen_bytes_fit(a.subrange(0, 16));
        lemma_sixteen_bytes_fit(b.subrange(0, 16));
        lemma_sixteen_bytes_fit(a.subrange(16, 32));
        lemma_sixteen_bytes_fit(b.subrange(16, 32));
        lemma_be_value_injective(a.subrange(0, 16), b.subrange(0, 16));
        lemma_be_value_injective(a.subrange(16, 32), b.subrange(16, 32));
        assert(a =~= a.subrange(0, 16) + a.subrange(16, 32));
        assert(b =~= b.subrange(0, 16) + b.subrange(16, 32));
    }
}

fn be_half(bytes: &Vec<u8>, start: usize) -> (half: u128)
    requires
        start + 16 <= bytes.len(),
    ensures
        half == be_value(bytes@.subrange(start as int, start + 16)),
{
    let mut half: u128 = 0;
    let mut i: usize = 0;
    while i < 16
        invariant
            i <= 16,
            start + 16 <= bytes.len(),
            half == be_value(bytes@.subrange(start as int, start + i)),
        decreases 16 - i,
    {
        proof {
            let longer = bytes@.subrange(start as int, start + i + 1);
            assert(longer.drop_last() =~= bytes@.subrange(start as int, start + i));
            lemma_sixteen_bytes_fit(longer);
        }
        half = half * 256 + bytes[start + i] as u128;
        i = i + 1;
    }
    half
}

/// Reads an identifier from its bytes; `None` unless there are exactly 32.
pub fn object_id_from_bytes(bytes: &Vec<u8>) -> (id: Option<ObjectID>)
    ensures
        match id {
            Some(found) => bytes@.len() == 32 && found == id_of_bytes(bytes@),
            None => bytes@.len() != 32,
        },
{
    if bytes.len() == OBJECT_ID_LENGTH {
        Some((be_half(bytes, 0), be_half(bytes, 16)))
    } else {
        None
    }
}

/// Whether two identifiers are the same.
pub fn same_id(a: &ObjectID, b: &ObjectID) -> (same: bool)
    ensures
        same == (*a == *b),
{
    a.0 == b.0 && a.1 == b.1
}

/// Who may use an object.
#[derive(Clone, Copy, Debug, PartialEq, Eq)]
pub enum Owner {
    AddressOwner(SuiAddress),
    Shared { initial_shared_version: SequenceNumber },
    Immutable,
}

/// An object: its identity, its version, who may use it, and its contents.
#[derive(Debug, PartialEq, Eq)]
pub struct Object {
    pub id: ObjectID,
    pub version: SequenceNumber,
    pub owner: Owner,
    pub contents: Arc<Vec<u8>>,
}

impl Clone for Object {
    fn clone(&self) -> (copy: Self)
        ensures
            copy == *self,
    {
        Object {
            id: self.id,
            version: self.version,
            owner: self.owner,
            contents: Arc::clone(&self.contents),
        }
    }
}

impl Object {
    /// A coin with a value.
    pub fn new_gas_coin(
        version: SequenceNumber,
        id: ObjectID,
        value: u64,
        owner: Owner,
    ) -> (object: Self)
        ensures
            object.id == id,
            object.version == version,
            object.owner == owner,
            object.contents@ == vstd::bytes::spec_u64_to_le_bytes(value),
    {
        Object { id, version, owner, contents: Arc::new(u64_to_le_bytes(value)) }
    }

    /// The identity of the object.
    pub fn id(&self) -> (id: ObjectID)
        ensures
            id == self.id,
    {
        self.id
    }

    /// The version of the object.
    pub fn version(&self) -> (version: SequenceNumber)
        ensures
            version == self.version,
    {
        self.version
    }

    /// Whether the object is shared.
    pub fn is_shared(&self) -> (shared: bool)
        ensures
            shared == (self.owner is Shared),
    {
        match self.owner {
            Owner::Shared { .. } => true,
            _ => false,
        }
    }
}

/// An input that a transaction declares.
#[derive(Clone, Copy, Debug, PartialEq, Eq)]
pub enum InputObjectKind {
    /// A package of code.
    MovePackage(ObjectID),
    /// An immutable or owned object at a version.
    ImmOrOwnedMoveObject(ObjectID, SequenceNumber),
    /// A shared object.
    SharedMoveObject { id: ObjectID, initial_shared_version: SequenceNumber, mutable: bool },
}

impl InputObjectKind {
    /// The object that the input names.
    pub open spec fn spec_object_id(self) -> ObjectID {
        match self {
            InputObjectKind::MovePackage(id) => id,
            InputObjectKind::ImmOrOwnedMoveObject(id, _) => id,
            InputObjectKind::SharedMoveObject { id, .. } => id,
        }
    }

    /// The object that the input names.
    pub fn object_id(&self) -> (id: ObjectID)
        ensures
            id == self.spec_object_id(),
    {
        match self {
            InputObjectKind::MovePackage(id) => *id,
            InputObjectKind::ImmOrOwnedMoveObject(id, _) => *id,
            InputObjectKind::SharedMoveObject { id, .. } => *id,
        }
    }

    /// Whether the input is a shared object.
    pub fn is_shared(&self) -> (shared: bool)
        ensures
            shared == (self is SharedMoveObject),
    {
        match self {
            InputObjectKind::SharedMoveObject { .. } => true,
            _ => false,
        }
    }
}

/// A byte stands for its own value, and the bytes before others weigh 256
/// times as much for each byte that follows them.
pub proof fn law_bytes_weigh_by_their_place(before: Seq<u8>, after: Seq<u8>, byte: u8)
    ensures
        be_value(seq![byte]) == byte,
        be_value(before + after) == be_value(before) * vstd::arithmetic::power::pow(
            256,
            after.len(),
        ) + be_value(after),
    decreases after.len(),
{
    reveal_with_fuel(be_value, 2);
    assert(seq![byte].drop_last() =~= Seq::<u8>::empty());
    if after.len() == 0 {
        assert(before + after =~= before);
        vstd::arithmetic::power::lemma_pow0(256);
    } else {
        let rest = after.drop_last();
        law_bytes_weigh_by_their_place(before, rest, byte);
        assert((before + after).drop_last() =~= before + rest);
        assert((before + after).last() == after.last());
        reveal(vstd::arithmetic::power::pow);
        let weight = vstd::arithmetic::power::pow(256, rest.len());
        let value = be_value(before) as int;
        assert(vstd::arithmetic::power::pow(256, after.len()) == 256 * weight);
        assert(value * weight * 256 == value * (256 * weight)) by (nonlinear_arith);
    }
}

/// The first half of an identifier is spelled by its first sixteen bytes and
/// the second half by its last sixteen, in full.
pub proof fn law_identifier_holds_all_bytes(s: Seq<u8>)
    requires
        s.len() == 32,
    ensures
        id_of_bytes(s).0 == be_value(s.take(16)),
        id_of_bytes(s).1 == be_value(s.skip(16)),
{
    assert(s.subrange(0, 16) =~= s.take(16));
    assert(s.subrange(16, 32) =~= s.skip(16));
    lemma_sixteen_bytes_fit(s.take(16));
    lemma_sixteen_bytes_fit(s.skip(16));
}

} // verus!
