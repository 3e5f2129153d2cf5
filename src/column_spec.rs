//! Column specifications: a 32-bit value packing a column id (28 bits), a
//! deflate flag (bit 3) and a column type (bits 0 to 2).
use vstd::prelude::*;

verus! {

#[derive(Debug, Clone, Copy, PartialEq, Eq, Structural)]
pub struct ColumnId(pub u32);

#[derive(Debug, Clone, Copy, PartialEq, Eq, Structural)]
pub enum ColumnType {
    Group,
    Actor,
    Integer,
    DeltaInteger,
    Boolean,
    String,
    ValueMetadata,
    Value,
}

/// The three-bit code of a column type.
pub open spec fn type_code(t: ColumnType) -> u8 {
    match t {
        ColumnType::Group => 0,
        ColumnType::Actor => 1,
        ColumnType::Integer => 2,
        ColumnType::DeltaInteger => 3,
        ColumnType::Boolean => 4,
        ColumnType::String => 5,
        ColumnType::ValueMetadata => 6,
        ColumnType::Value => 7,
    }
}

/// The column type whose code is the low three bits of `v`.
pub open spec fn type_of_bits(v: int) -> ColumnType {
    let c = v % 8;
    if c == 0 {
        ColumnType::Group
    } else if c == 1 {
        ColumnType::Actor
    } else if c == 2 {
        ColumnType::Integer
    } else if c == 3 {
        ColumnType::DeltaInteger
    } else if c == 4 {
        ColumnType::Boolean
    } else if c == 5 {
        ColumnType::String
    } else if c == 6 {
        ColumnType::ValueMetadata
    } else {
        ColumnType::Value
    }
}

impl From<u8> for ColumnType {
    /// Reads the low three bits.
    fn from(v: u8) -> (r: ColumnType) {
        match v % 8 {
            0 => ColumnType::Group,
            1 => ColumnType::Actor,
            2 => ColumnType::Integer,
            3 => ColumnType::DeltaInteger,
            4 => ColumnType::Boolean,
            5 => ColumnType::String,
            6 => ColumnType::ValueMetadata,
            _ => ColumnType::Value,
        }
    }
}

impl vstd::std_specs::convert::FromSpecImpl<u8> for ColumnType {
    open spec fn obeys_from_spec() -> bool {
        true
    }

    open spec fn from_spec(v: u8) -> ColumnType {
        type_of_bits(v as int)
    }
}

impl From<ColumnType> for u8 {
    fn from(t: ColumnType) -> (r: u8) {
        match t {
            ColumnType::Group => 0,
            ColumnType::Actor => 1,
            ColumnType::Integer => 2,
            ColumnType::DeltaInteger => 3,
            ColumnType::Boolean => 4,
            ColumnType::String => 5,
            ColumnType::ValueMetadata => 6,
            ColumnType::Value => 7,
        }
    }
}

impl vstd::std_specs::convert::FromSpecImpl<ColumnType> for u8 {
    open spec fn obeys_from_spec() -> bool {
        true
    }

    open spec fn from_spec(t: ColumnType) -> u8 {
        type_code(t)
    }
}

#[derive(Debug, Clone, Copy, PartialEq, Eq, Structural)]
pub struct ColumnSpec(pub u32);

/// The largest column id plus one: ids have 28 bits.
pub const COLUMN_ID_LIMIT: u32 = 0x1000_0000;

/// The packed value of a column specification.
pub open spec fn spec_pack(id: u32, t: ColumnType, deflate: bool) -> u32 {
    (id * 16 + (if deflate { 8int } else { 0int }) + type_code(t)) as u32
}

/// The id held in a packed value.
pub open spec fn spec_id(raw: u32) -> u32 {
    raw / 16
}

/// Whether the deflate bit of a packed value is set.
pub open spec fn spec_deflate(raw: u32) -> bool {
    (raw / 8) % 2 == 1
}

/// The packed value with the deflate bit cleared.
pub open spec fn spec_normalize(raw: u32) -> u32 {
    (raw / 16 * 16 + raw % 8) as u32
}

impl ColumnSpec {
    pub fn new(id: ColumnId, col_type: ColumnType, deflate: bool) -> (r: ColumnSpec)
        requires
            id.0 < COLUMN_ID_LIMIT,
        ensures
            r.0 == spec_pack(id.0, col_type, deflate),
    {
        let flag: u32 = if deflate { 8 } else { 0 };
        ColumnSpec(id.0 * 16 + flag + u8::from(col_type) as u32)
    }

    pub fn col_type(&self) -> (r: ColumnType)
        ensures
            r == type_of_bits(self.0 as int),
    {
        ColumnType::from((self.0 % 256) as u8)
    }

    pub fn id(&self) -> (r: ColumnId)
        ensures
            r.0 == spec_id(self.0),
    {
        ColumnId(self.0 / 16)
    }

    pub fn deflate(&self) -> (r: bool)
        ensures
            r == spec_deflate(self.0),
    {
        (self.0 / 8) % 2 == 1
    }

    /// The specification with the deflate flag cleared, which orders and
    /// compares columns.
    pub fn normalize(&self) -> (r: ColumnSpec)
        ensures
            r.0 == spec_normalize(self.0),
    {
        ColumnSpec(self.0 / 16 * 16 + self.0 % 8)
    }
}

impl From<u32> for ColumnSpec {
    fn from(raw: u32) -> (r: ColumnSpec) {
        ColumnSpec(raw)
    }
}

impl vstd::std_specs::convert::FromSpecImpl<u32> for ColumnSpec {
    open spec fn obeys_from_spec() -> bool {
        true
    }

    open spec fn from_spec(raw: u32) -> ColumnSpec {
        ColumnSpec(raw)
    }
}

impl From<ColumnSpec> for u32 {
    fn from(spec: ColumnSpec) -> (r: u32) {
        spec.0
    }
}

impl vstd::std_specs::convert::FromSpecImpl<ColumnSpec> for u32 {
    open spec fn obeys_from_spec() -> bool {
        true
    }

    open spec fn from_spec(spec: ColumnSpec) -> u32 {
        spec.0
    }
}

/// Packing an id, a type and a deflate flag and reading them back gives the
/// same three values.
pub proof fn lemma_column_spec_round_trip(id: u32, t: ColumnType, deflate: bool)
    requires
        id < COLUMN_ID_LIMIT,
    ensures
        spec_id(spec_pack(id, t, deflate)) == id,
        type_of_bits(spec_pack(id, t, deflate) as int) == t,
        spec_deflate(spec_pack(id, t, deflate)) == deflate,
{
}

/// Two specifications are equal once normalized exactly when they differ at
/// most in the deflate flag, that is when their ids and types agree.
pub proof fn lemma_normalize_ignores_deflate(a: u32, b: u32)
    ensures
        spec_normalize(a) == spec_normalize(b) <==> (spec_id(a) == spec_id(b) && type_of_bits(
            a as int,
        ) == type_of_bits(b as int)),
        spec_normalize(a) == spec_normalize(b) <==> (a == b || a == spec_flip_deflate(b)),
{
    lemma_normalize_bits(a, b);
}

proof fn lemma_normalize_bits(a: u32, b: u32)
    by (bit_vector)
    ensures
        ((a / 16 * 16 + a % 8) as u32 == (b / 16 * 16 + b % 8) as u32) <==> (a / 16 == b / 16 && a % 8
            == b % 8),
        ((a / 16 * 16 + a % 8) as u32 == (b / 16 * 16 + b % 8) as u32) <==> (a == b || ((b / 8) % 2
            == 1 && a == (b - 8) as u32) || ((b / 8) % 2 != 1 && a == (b + 8) as u32)),
{
}

/// The packed value with the deflate bit flipped.
pub open spec fn spec_flip_deflate(raw: u32) -> u32 {
    if spec_deflate(raw) {
        (raw - 8) as u32
    } else {
        (raw + 8) as u32
    }
}

} // verus!
