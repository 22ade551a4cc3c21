//! The shape of a field, as far as decoding it depends on it, and what its leaves are decoded from.

use arrow2::datatypes::Field;
use vstd::prelude::*;

use crate::arrow::field_key;
use crate::arrow::field_kind;
use crate::arrow::field_layout;
use crate::arrow::field_number;
use crate::arrow::field_shape;
use crate::arrow::key_type;
use crate::arrow::kind;
use crate::arrow::layout;
use crate::arrow::number;
use crate::arrow::outline;

verus! {

/// How the values of a type lie in memory.
#[derive(Clone, Copy, Debug, PartialEq, Eq, Structural)]
pub enum PhysicalLayout {
    Null,
    Boolean,
    Primitive,
    Binary,
    FixedSizeBinary,
    LargeBinary,
    Utf8,
    LargeUtf8,
    List,
    FixedSizeList,
    LargeList,
    Struct,
    Union,
    Mapping,
    Dictionary,
}

/// What a value of a primitive type is in memory.
#[derive(Clone, Copy, Debug, PartialEq, Eq, Structural)]
pub enum Number {
    Int8,
    Int16,
    Int32,
    Int64,
    Int128,
    Int256,
    UInt8,
    UInt16,
    UInt32,
    UInt64,
    Float16,
    Float32,
    Float64,
    DaysMs,
    MonthDayNano,
}

/// A unit of time.
#[derive(Clone, Copy, Debug, PartialEq, Eq, Structural)]
pub enum Unit {
    Second,
    Millisecond,
    Microsecond,
    Nanosecond,
}

/// What more there is to know of a type without types below it.
#[derive(Clone, Copy, Debug, PartialEq, Eq, Structural)]
pub enum LeafKind {
    /// Byte strings of this length.
    FixedSizeBinary(usize),
    /// Counts of this unit.
    Timestamp(Unit),
    Interval,
    Plain,
}

/// A type without types below it.
#[derive(Clone, Copy, Debug, PartialEq, Eq, Structural)]
pub struct LeafType {
    pub kind: LeafKind,
    pub layout: PhysicalLayout,
    /// What a value is, for a primitive type.
    pub number: Option<Number>,
}

/// The shape of a field: the types that it is made of.
#[derive(Debug, PartialEq, Eq)]
pub enum FieldShape {
    Leaf {
        nullable: bool,
        /// Whether the type is an extension type.
        extension: bool,
        leaf: LeafType,
    },
    Dictionary {
        nullable: bool,
        /// Whether the type is an extension type.
        extension: bool,
        /// What a key is.
        key: Option<Number>,
        values: Box<FieldShape>,
    },
    List {
        nullable: bool,
        /// Whether the offsets have 64 bits.
        large: bool,
        item: Box<FieldShape>,
    },
    FixedSizeList { nullable: bool, size: usize, item: Box<FieldShape> },
    Struct {
        nullable: bool,
        /// Whether the type is an extension type.
        extension: bool,
        fields: Box<FieldShapes>,
    },
    Mapping { nullable: bool, entries: Box<FieldShape> },
}

/// The shapes of the fields of a struct, in order.
#[derive(Debug, PartialEq, Eq)]
pub enum FieldShapes {
    End,
    Field(Box<FieldShape>, Box<FieldShapes>),
}

/// What a value of a leaf column is in parquet.
#[derive(Clone, Copy, Debug, PartialEq, Eq, Structural)]
pub enum LeafPhysical {
    Boolean,
    Int32,
    Int64,
    Int96,
    Float,
    Double,
    ByteArray,
    FixedLenByteArray(usize),
}

/// How often a leaf column has a value where the fields above it are there.
#[derive(Clone, Copy, Debug, PartialEq, Eq, Structural)]
pub enum LeafRepetition {
    Required,
    Optional,
    Repeated,
}

/// How a leaf column is stored in parquet.
#[derive(Clone, Copy, Debug, PartialEq, Eq, Structural)]
pub struct LeafColumn {
    pub physical: LeafPhysical,
    pub repetition: LeafRepetition,
    /// The largest definition level.
    pub def_level: i16,
    /// The largest repetition level.
    pub rep_level: i16,
    /// The unit of a timestamp, where the column says that it holds timestamps.
    pub unit: Option<Unit>,
}

/// A field, down to the fields below it.
pub struct Outline<'a> {
    pub nullable: bool,
    /// Whether the type is an extension type.
    pub extension: bool,
    pub parts: OutlineParts<'a>,
}

/// What a field is made of.
pub enum OutlineParts<'a> {
    /// The values of a dictionary.
    Dictionary(Field),
    List(&'a Field),
    LargeList(&'a Field),
    FixedSizeList(&'a Field, usize),
    Struct(&'a Vec<Field>),
    Mapping(&'a Field),
    Leaf,
}

/// The shapes of fields, in order.
pub open spec fn field_shapes(fields: Seq<Field>) -> FieldShapes
    decreases fields.len(),
{
    if fields.len() == 0 {
        FieldShapes::End
    } else {
        FieldShapes::Field(
            Box::new(field_shape(fields[0])),
            Box::new(field_shapes(fields.drop_first())),
        )
    }
}

impl<'a> Outline<'a> {
    /// The shape of a field that has this outline.
    pub open spec fn shape(self, field: Field) -> FieldShape {
        let nullable = self.nullable;
        let extension = self.extension;
        match self.parts {
            OutlineParts::Dictionary(values) => FieldShape::Dictionary {
                nullable,
                extension,
                key: field_key(field),
                values: Box::new(field_shape(values)),
            },
            OutlineParts::List(item) => FieldShape::List {
                nullable,
                large: false,
                item: Box::new(field_shape(*item)),
            },
            OutlineParts::LargeList(item) => FieldShape::List {
                nullable,
                large: true,
                item: Box::new(field_shape(*item)),
            },
            OutlineParts::FixedSizeList(item, size) => FieldShape::FixedSizeList {
                nullable,
                size,
                item: Box::new(field_shape(*item)),
            },
            OutlineParts::Struct(fields) => FieldShape::Struct {
                nullable,
                extension,
                fields: Box::new(field_shapes(fields@)),
            },
            OutlineParts::Mapping(entries) => FieldShape::Mapping {
                nullable,
                entries: Box::new(field_shape(*entries)),
            },
            OutlineParts::Leaf => FieldShape::Leaf {
                nullable,
                extension,
                leaf: LeafType {
                    kind: field_kind(field),
                    layout: field_layout(field),
                    number: field_number(field),
                },
            },
        }
    }
}

/// The shape of a field.
pub fn shape_of(field: &Field) -> (r: FieldShape)
    ensures
        r == field_shape(*field),
    decreases field_shape(*field), 0nat,
{
    let outline = outline(field);
    let nullable: bool = outline.nullable;
    let extension: bool = outline.extension;
    proof {
        let shape = field_shape(*field);
        match outline.parts {
            OutlineParts::Dictionary(_) => assert(decreases_to!(shape => shape->values)),
            OutlineParts::List(_) => assert(decreases_to!(shape => shape->List_item)),
            OutlineParts::LargeList(_) => assert(decreases_to!(shape => shape->List_item)),
            OutlineParts::FixedSizeList(_, _) => assert(decreases_to!(shape => shape->FixedSizeList_item)),
            OutlineParts::Struct(fields) => {
                assert(decreases_to!(shape => shape->fields));
                assert(fields@.skip(0) =~= fields@);
            },
            OutlineParts::Mapping(_) => assert(decreases_to!(shape => shape->entries)),
            OutlineParts::Leaf => {},
        }
    }
    match outline.parts {
        OutlineParts::Dictionary(values) => FieldShape::Dictionary {
            nullable,
            extension,
            key: key_type(field),
            values: Box::new(shape_of(&values)),
        },
        OutlineParts::List(item) => FieldShape::List {
            nullable,
            large: false,
            item: Box::new(shape_of(item)),
        },
        OutlineParts::LargeList(item) => FieldShape::List {
            nullable,
            large: true,
            item: Box::new(shape_of(item)),
        },
        OutlineParts::FixedSizeList(item, size) => FieldShape::FixedSizeList {
            nullable,
            size,
            item: Box::new(shape_of(item)),
        },
        OutlineParts::Struct(fields) => {
            let fields = Box::new(shapes_of(fields, 0));
            FieldShape::Struct { nullable, extension, fields }
        },
        OutlineParts::Mapping(entries) => FieldShape::Mapping { nullable, entries: Box::new(shape_of(entries)) },
        OutlineParts::Leaf => FieldShape::Leaf {
            nullable,
            extension,
            leaf: LeafType { kind: kind(field), layout: layout(field), number: number(field) },
        },
    }
}

/// The shapes of fields, from a position on.
fn shapes_of(fields: &Vec<Field>, from: usize) -> (r: FieldShapes)
    requires
        from <= fields.len(),
    ensures
        r == field_shapes(fields@.skip(from as int)),
    decreases field_shapes(fields@.skip(from as int)), 1nat,
{
    let ghost rest = fields@.skip(from as int);
    if from < fields.len() {
        assert(rest.drop_first() =~= fields@.skip(from + 1));
        assert(rest[0] == fields@[from as int]);
        proof {
            let shapes = field_shapes(rest);
            assert(decreases_to!(shapes => shapes->Field_0));
            assert(decreases_to!(shapes => shapes->Field_1));
        }
        FieldShapes::Field(Box::new(shape_of(&fields[from])), Box::new(shapes_of(fields, from + 1)))
    } else {
        FieldShapes::End
    }
}

/// What becomes of a stored number.
#[derive(Clone, Copy, Debug, PartialEq, Eq, Structural)]
pub enum Scaling {
    /// It is kept, or becomes smaller.
    Kept,
    /// It is multiplied.
    Times(i64),
    /// It is a day and a time of the day, and becomes a count of nanoseconds.
    Instant,
}

/// What the values of a dictionary are decoded from.
#[derive(Clone, Copy, Debug, PartialEq, Eq, Structural)]
pub enum DictionaryValues {
    /// Numbers of so many bytes.
    Number { size: usize, scaling: Scaling },
    /// Byte strings, each after its length.
    Bytes { text: bool },
    /// Byte strings of one size.
    Fixed { size: usize },
    /// No dictionary can be decoded.
    Broken,
}

/// What a leaf is decoded from.
#[derive(Clone, Copy, Debug, PartialEq, Eq, Structural)]
pub enum Reading {
    /// The type is refused before a page is looked at.
    Refused,
    /// The type cannot be decoded, whatever the pages hold.
    Broken,
    /// Pages are counted, not decoded.
    Nulls,
    Boolean,
    /// Numbers of so many bytes, which may be delta-encoded.
    Number { size: usize, delta: bool, scaling: Scaling },
    /// Byte strings, counted by offsets of 32 or of 64 bits.
    Bytes { small: bool },
    /// Byte strings of one size.
    Fixed { size: usize },
    /// Keys of a dictionary.
    Keys { most: u64, values: DictionaryValues },
}

/// Numbers of four bytes that may be delta-encoded.
pub open spec fn four_byte_integers() -> Reading {
    Reading::Number { size: 4, delta: true, scaling: Scaling::Kept }
}

/// Numbers of eight bytes that may be delta-encoded.
pub open spec fn eight_byte_integers() -> Reading {
    Reading::Number { size: 8, delta: true, scaling: Scaling::Kept }
}

/// What becomes of a count of one unit that is to be a count of another.
pub open spec fn scaling_of(stored: Option<Unit>, unit: Unit) -> Scaling {
    match (stored, unit) {
        (Some(Unit::Millisecond), Unit::Microsecond) => Scaling::Times(1000),
        (Some(Unit::Microsecond), Unit::Nanosecond) => Scaling::Times(1000),
        (Some(Unit::Millisecond), Unit::Nanosecond) => Scaling::Times(1000000),
        _ => Scaling::Kept,
    }
}

/// Tells what becomes of a count of one unit that is to be a count of another.
fn find_scaling(stored: Option<Unit>, unit: Unit) -> (r: Scaling)
    ensures
        r == scaling_of(stored, unit),
{
    match (stored, unit) {
        (Some(Unit::Millisecond), Unit::Microsecond) => Scaling::Times(1000),
        (Some(Unit::Microsecond), Unit::Nanosecond) => Scaling::Times(1000),
        (Some(Unit::Millisecond), Unit::Nanosecond) => Scaling::Times(1000000),
        _ => Scaling::Kept,
    }
}

/// What byte strings of one size are decoded from.
pub open spec fn fixed_reading(size: usize) -> Reading {
    if size == 0 {
        Reading::Broken
    } else {
        Reading::Fixed { size }
    }
}

/// What a number is decoded from that is a whole field.
pub open spec fn flat_number_reading(kind: LeafKind, number: Number, column: LeafColumn) -> Reading {
    match number {
        Number::Int8 | Number::Int16 | Number::UInt8 | Number::UInt16 => four_byte_integers(),
        Number::Int32 => if kind is Interval {
            Reading::Fixed { size: 12 }
        } else {
            four_byte_integers()
        },
        Number::UInt32 => match column.physical {
            LeafPhysical::Int32 => four_byte_integers(),
            LeafPhysical::Int64 => eight_byte_integers(),
            _ => Reading::Refused,
        },
        Number::Int64 => match kind {
            LeafKind::Timestamp(unit) => match column.physical {
                LeafPhysical::Int96 => Reading::Number { size: 12, delta: false, scaling: Scaling::Instant },
                LeafPhysical::Int64 => Reading::Number {
                    size: 8,
                    delta: true,
                    scaling: scaling_of(column.unit, unit),
                },
                _ => Reading::Refused,
            },
            _ => eight_byte_integers(),
        },
        Number::UInt64 => eight_byte_integers(),
        Number::Float32 => Reading::Number { size: 4, delta: false, scaling: Scaling::Kept },
        Number::Float64 => Reading::Number { size: 8, delta: false, scaling: Scaling::Kept },
        Number::Int128 => match column.physical {
            LeafPhysical::Int32 => four_byte_integers(),
            LeafPhysical::Int64 => eight_byte_integers(),
            LeafPhysical::FixedLenByteArray(size) => if size > 16 {
                Reading::Refused
            } else {
                fixed_reading(size)
            },
            _ => Reading::Broken,
        },
        Number::DaysMs => Reading::Fixed { size: 12 },
        Number::Int256 | Number::Float16 | Number::MonthDayNano => Reading::Refused,
    }
}

/// Tells what a number is decoded from that is a whole field.
fn read_flat_number(kind: LeafKind, number: Number, column: LeafColumn) -> (r: Reading)
    ensures
        r == flat_number_reading(kind, number, column),
{
    let four = Reading::Number { size: 4, delta: true, scaling: Scaling::Kept };
    let eight = Reading::Number { size: 8, delta: true, scaling: Scaling::Kept };
    match number {
        Number::Int8 | Number::Int16 | Number::UInt8 | Number::UInt16 => four,
        Number::Int32 => match kind {
            LeafKind::Interval => Reading::Fixed { size: 12 },
            _ => four,
        },
        Number::UInt32 => match column.physical {
            LeafPhysical::Int32 => four,
            LeafPhysical::Int64 => eight,
            _ => Reading::Refused,
        },
        Number::Int64 => match kind {
            LeafKind::Timestamp(unit) => match column.physical {
                LeafPhysical::Int96 => Reading::Number { size: 12, delta: false, scaling: Scaling::Instant },
                LeafPhysical::Int64 => Reading::Number {
                    size: 8,
                    delta: true,
                    scaling: find_scaling(column.unit, unit),
                },
                _ => Reading::Refused,
            },
            _ => eight,
        },
        Number::UInt64 => eight,
        Number::Float32 => Reading::Number { size: 4, delta: false, scaling: Scaling::Kept },
        Number::Float64 => Reading::Number { size: 8, delta: false, scaling: Scaling::Kept },
        Number::Int128 => match column.physical {
            LeafPhysical::Int32 => four,
            LeafPhysical::Int64 => eight,
            LeafPhysical::FixedLenByteArray(size) => if size > 16 {
                Reading::Refused
            } else if size == 0 {
                Reading::Broken
            } else {
                Reading::Fixed { size }
            },
            _ => Reading::Broken,
        },
        Number::DaysMs => Reading::Fixed { size: 12 },
        Number::Int256 | Number::Float16 | Number::MonthDayNano => Reading::Refused,
    }
}

/// What a number is decoded from in a field with types above it.
pub open spec fn nested_number_reading(number: Number, physical: LeafPhysical) -> Reading {
    match number {
        Number::Int8 | Number::Int16 | Number::Int32 | Number::UInt8 | Number::UInt16 | Number::Float32 => {
            Reading::Number { size: 4, delta: false, scaling: Scaling::Kept }
        },
        Number::UInt32 => match physical {
            LeafPhysical::Int32 => Reading::Number { size: 4, delta: false, scaling: Scaling::Kept },
            LeafPhysical::Int64 => Reading::Number { size: 8, delta: false, scaling: Scaling::Kept },
            _ => Reading::Refused,
        },
        Number::Int64 | Number::UInt64 | Number::Float64 => Reading::Number { size: 8, delta: false, scaling: Scaling::Kept },
        Number::Int128 | Number::Int256 | Number::Float16 | Number::DaysMs | Number::MonthDayNano => {
            Reading::Refused
        },
    }
}

/// Tells what a number is decoded from in a field with types above it.
fn read_nested_number(number: Number, physical: LeafPhysical) -> (r: Reading)
    ensures
        r == nested_number_reading(number, physical),
{
    match number {
        Number::Int8 | Number::Int16 | Number::Int32 | Number::UInt8 | Number::UInt16 | Number::Float32 => {
            Reading::Number { size: 4, delta: false, scaling: Scaling::Kept }
        },
        Number::UInt32 => match physical {
            LeafPhysical::Int32 => Reading::Number { size: 4, delta: false, scaling: Scaling::Kept },
            LeafPhysical::Int64 => Reading::Number { size: 8, delta: false, scaling: Scaling::Kept },
            _ => Reading::Refused,
        },
        Number::Int64 | Number::UInt64 | Number::Float64 => Reading::Number { size: 8, delta: false, scaling: Scaling::Kept },
        Number::Int128 | Number::Int256 | Number::Float16 | Number::DaysMs | Number::MonthDayNano => {
            Reading::Refused
        },
    }
}

/// What a leaf is decoded from. An extension of a boolean loses its extension where there are types above
/// it, and does not fit them.
pub open spec fn leaf_reading(nested: bool, extension: bool, leaf: LeafType, column: LeafColumn) -> Reading {
    match leaf.layout {
        PhysicalLayout::Null => if nested {
            Reading::Refused
        } else {
            Reading::Nulls
        },
        PhysicalLayout::Boolean => if nested && extension {
            Reading::Broken
        } else {
            Reading::Boolean
        },
        PhysicalLayout::Binary | PhysicalLayout::Utf8 => Reading::Bytes { small: true },
        PhysicalLayout::LargeBinary | PhysicalLayout::LargeUtf8 => Reading::Bytes { small: false },
        PhysicalLayout::FixedSizeBinary => if nested {
            Reading::Refused
        } else {
            match leaf.kind {
                LeafKind::FixedSizeBinary(size) => fixed_reading(size),
                _ => Reading::Broken,
            }
        },
        PhysicalLayout::Primitive => match leaf.number {
            Some(number) => if nested {
                nested_number_reading(number, column.physical)
            } else {
                flat_number_reading(leaf.kind, number, column)
            },
            None => Reading::Broken,
        },
        PhysicalLayout::Union => Reading::Refused,
        _ => Reading::Broken,
    }
}

/// Tells what a leaf is decoded from.
fn read_leaf(nested: bool, extension: bool, leaf: LeafType, column: LeafColumn) -> (r: Reading)
    ensures
        r == leaf_reading(nested, extension, leaf, column),
{
    match leaf.layout {
        PhysicalLayout::Null => if nested {
            Reading::Refused
        } else {
            Reading::Nulls
        },
        PhysicalLayout::Boolean => if nested && extension {
            Reading::Broken
        } else {
            Reading::Boolean
        },
        PhysicalLayout::Binary | PhysicalLayout::Utf8 => Reading::Bytes { small: true },
        PhysicalLayout::LargeBinary | PhysicalLayout::LargeUtf8 => Reading::Bytes { small: false },
        PhysicalLayout::FixedSizeBinary => if nested {
            Reading::Refused
        } else {
            match leaf.kind {
                LeafKind::FixedSizeBinary(size) => if size == 0 {
                    Reading::Broken
                } else {
                    Reading::Fixed { size }
                },
                _ => Reading::Broken,
            }
        },
        PhysicalLayout::Primitive => match leaf.number {
            Some(number) => if nested {
                read_nested_number(number, column.physical)
            } else {
                read_flat_number(leaf.kind, number, column)
            },
            None => Reading::Broken,
        },
        PhysicalLayout::Union => Reading::Refused,
        _ => Reading::Broken,
    }
}

/// The largest key of a type of keys.
pub open spec fn most_key(key: Number) -> u64 {
    match key {
        Number::Int8 => 0x7f,
        Number::Int16 => 0x7fff,
        Number::Int32 => 0x7fff_ffff,
        Number::UInt8 => 0xff,
        Number::UInt16 => 0xffff,
        _ => 0xffff_ffff,
    }
}

/// Tells the largest key of a type of keys. An index in a page has at most 32 bits.
fn read_most_key(key: Number) -> (r: u64)
    ensures
        r == most_key(key),
{
    match key {
        Number::Int8 => 0x7f,
        Number::Int16 => 0x7fff,
        Number::Int32 => 0x7fff_ffff,
        Number::UInt8 => 0xff,
        Number::UInt16 => 0xffff,
        _ => 0xffff_ffff,
    }
}

/// What the values of a dictionary are decoded from; `None` where they are refused. Below other types,
/// 64-bit integers are taken for 32-bit ones, and do not fit.
pub open spec fn values_reading(nested: bool, leaf: LeafType, column: LeafColumn) -> Option<DictionaryValues> {
    match leaf.layout {
        PhysicalLayout::Binary | PhysicalLayout::LargeBinary => Some(DictionaryValues::Bytes { text: false }),
        PhysicalLayout::Utf8 | PhysicalLayout::LargeUtf8 => Some(DictionaryValues::Bytes { text: true }),
        PhysicalLayout::FixedSizeBinary => match leaf.kind {
            LeafKind::FixedSizeBinary(size) => Some(
                if size == 0 {
                    DictionaryValues::Broken
                } else {
                    DictionaryValues::Fixed { size }
                },
            ),
            _ => Some(DictionaryValues::Broken),
        },
        PhysicalLayout::Primitive => match leaf.number {
            Some(number) => match number {
                Number::Int8 | Number::Int16 | Number::Int32 | Number::UInt8 | Number::UInt16 | Number::UInt32
                | Number::Float32 => Some(DictionaryValues::Number { size: 4, scaling: Scaling::Kept }),
                Number::UInt64 => if nested {
                    None
                } else {
                    Some(DictionaryValues::Number { size: 8, scaling: Scaling::Kept })
                },
                Number::Int64 => match leaf.kind {
                    LeafKind::Timestamp(unit) => if nested {
                        None
                    } else if column.physical is Int96 {
                        Some(DictionaryValues::Number { size: 12, scaling: Scaling::Instant })
                    } else {
                        Some(DictionaryValues::Number { size: 8, scaling: scaling_of(column.unit, unit) })
                    },
                    _ => if nested {
                        Some(DictionaryValues::Broken)
                    } else {
                        Some(DictionaryValues::Number { size: 8, scaling: Scaling::Kept })
                    },
                },
                Number::Float64 => Some(DictionaryValues::Number { size: 8, scaling: Scaling::Kept }),
                _ => None,
            },
            None => Some(DictionaryValues::Broken),
        },
        _ => None,
    }
}

/// Tells what the values of a dictionary are decoded from.
fn read_values(nested: bool, leaf: LeafType, column: LeafColumn) -> (r: Option<DictionaryValues>)
    ensures
        r == values_reading(nested, leaf, column),
{
    match leaf.layout {
        PhysicalLayout::Binary | PhysicalLayout::LargeBinary => Some(DictionaryValues::Bytes { text: false }),
        PhysicalLayout::Utf8 | PhysicalLayout::LargeUtf8 => Some(DictionaryValues::Bytes { text: true }),
        PhysicalLayout::FixedSizeBinary => match leaf.kind {
            LeafKind::FixedSizeBinary(size) => Some(
                if size == 0 {
                    DictionaryValues::Broken
                } else {
                    DictionaryValues::Fixed { size }
                },
            ),
            _ => Some(DictionaryValues::Broken),
        },
        PhysicalLayout::Primitive => match leaf.number {
            Some(number) => match number {
                Number::Int8 | Number::Int16 | Number::Int32 | Number::UInt8 | Number::UInt16 | Number::UInt32
                | Number::Float32 => Some(DictionaryValues::Number { size: 4, scaling: Scaling::Kept }),
                Number::UInt64 => if nested {
                    None
                } else {
                    Some(DictionaryValues::Number { size: 8, scaling: Scaling::Kept })
                },
                Number::Int64 => match leaf.kind {
                    LeafKind::Timestamp(unit) => if nested {
                        None
                    } else if column.physical == LeafPhysical::Int96 {
                        Some(DictionaryValues::Number { size: 12, scaling: Scaling::Instant })
                    } else {
                        Some(DictionaryValues::Number { size: 8, scaling: find_scaling(column.unit, unit) })
                    },
                    _ => if nested {
                        Some(DictionaryValues::Broken)
                    } else {
                        Some(DictionaryValues::Number { size: 8, scaling: Scaling::Kept })
                    },
                },
                Number::Float64 => Some(DictionaryValues::Number { size: 8, scaling: Scaling::Kept }),
                _ => None,
            },
            None => Some(DictionaryValues::Broken),
        },
        _ => None,
    }
}

/// What a dictionary is decoded from. An extension of one is not decoded.
pub open spec fn dictionary_reading(
    nested: bool,
    extension: bool,
    key: Option<Number>,
    values: FieldShape,
    column: LeafColumn,
) -> Reading {
    match key {
        None => Reading::Broken,
        Some(key) => if extension {
            Reading::Broken
        } else {
            match values {
                FieldShape::Leaf { leaf, .. } => match values_reading(nested, leaf, column) {
                    Some(values) => Reading::Keys { most: most_key(key), values },
                    None => Reading::Refused,
                },
                _ => Reading::Refused,
            }
        },
    }
}

/// Tells what a dictionary is decoded from.
fn read_dictionary(
    nested: bool,
    extension: bool,
    key: Option<Number>,
    values: &FieldShape,
    column: LeafColumn,
) -> (r: Reading)
    ensures
        r == dictionary_reading(nested, extension, key, *values, column),
{
    match key {
        None => Reading::Broken,
        Some(key) => {
            if extension {
                return Reading::Broken;
            }
            match values {
                FieldShape::Leaf { leaf, .. } => match read_values(nested, *leaf, column) {
                    Some(values) => Reading::Keys { most: read_most_key(key), values },
                    None => Reading::Refused,
                },
                _ => Reading::Refused,
            }
        },
    }
}

/// What a shape without shapes below it that are decoded is decoded from; `None` for another shape.
pub open spec fn reading_of(shape: FieldShape, nested: bool, column: LeafColumn) -> Option<Reading> {
    match shape {
        FieldShape::Leaf { extension, leaf, .. } => Some(leaf_reading(nested, extension, leaf, column)),
        FieldShape::Dictionary { extension, key, values, .. } => Some(
            dictionary_reading(nested, extension, key, *values, column),
        ),
        _ => None,
    }
}

/// Tells what a shape without shapes below it that are decoded is decoded from.
pub fn read_shape(shape: &FieldShape, nested: bool, column: LeafColumn) -> (r: Option<Reading>)
    ensures
        r == reading_of(*shape, nested, column),
{
    match shape {
        FieldShape::Leaf { extension, leaf, .. } => Some(read_leaf(nested, *extension, *leaf, column)),
        FieldShape::Dictionary { extension, key, values, .. } => Some(
            read_dictionary(nested, *extension, *key, values, column),
        ),
        _ => None,
    }
}

/// Whether a shape is that of a union.
pub open spec fn is_union(shape: FieldShape) -> bool {
    shape matches FieldShape::Leaf { leaf, .. } && leaf.layout is Union
}

/// Sets up the decoding of a type in a field: whether a type in it is refused, and the position after the
/// columns, from `at` on, that it is decoded from. `None` where there are too few columns, or where the
/// type cannot be decoded whatever the pages hold.
///
/// The columns of the fields of a struct are counted, and a union or a map has no count. A map holds
/// structs of a key and a value. A list of items of one size is cut by that size.
pub open spec fn set_up(
    shape: FieldShape,
    nested: bool,
    in_struct: bool,
    columns: Seq<LeafColumn>,
    at: nat,
) -> Option<(bool, nat)>
    decreases shape,
{
    match shape {
        FieldShape::List { item, .. } => set_up(*item, true, in_struct, columns, at),
        FieldShape::FixedSizeList { size, item, .. } => if size == 0 {
            None
        } else {
            set_up(*item, true, in_struct, columns, at)
        },
        FieldShape::Struct { extension, fields, .. } => if nested && extension || *fields is End {
            None
        } else {
            set_up_fields(*fields, columns, at, false)
        },
        FieldShape::Mapping { entries, .. } => if !in_struct && is_entry(*entries) {
            set_up(*entries, true, in_struct, columns, at)
        } else {
            None
        },
        _ => if is_union(shape) {
            if in_struct {
                None
            } else {
                Some((true, columns.len()))
            }
        } else if at < columns.len() {
            match reading_of(shape, nested, columns[at as int]) {
                Some(Reading::Broken) => None,
                Some(reading) => Some((reading is Refused, at + 1)),
                None => None,
            }
        } else {
            None
        },
    }
}

/// Sets up the decoding of the fields of a struct. `refused` tells whether one before them is refused.
pub open spec fn set_up_fields(
    fields: FieldShapes,
    columns: Seq<LeafColumn>,
    at: nat,
    refused: bool,
) -> Option<(bool, nat)>
    decreases fields,
{
    match fields {
        FieldShapes::End => Some((refused, at)),
        FieldShapes::Field(field, rest) => match set_up(*field, true, true, columns, at) {
            Some((too, next)) => set_up_fields(*rest, columns, next, refused || too),
            None => None,
        },
    }
}

/// Whether a shape is that of an entry of a map: a struct of a key and a value.
pub open spec fn is_entry(shape: FieldShape) -> bool {
    &&& shape matches FieldShape::Struct { extension, fields, .. }
    &&& !extension
    &&& *fields matches FieldShapes::Field(_, values)
    &&& *values matches FieldShapes::Field(_, rest)
    &&& *rest is End
}

/// Tells whether a shape is that of an entry of a map.
fn is_key_and_value(shape: &FieldShape) -> (r: bool)
    ensures
        r == is_entry(*shape),
{
    match shape {
        FieldShape::Struct { extension, fields, .. } => match &**fields {
            FieldShapes::Field(_, values) => match &**values {
                FieldShapes::Field(_, rest) => match &**rest {
                    FieldShapes::End => !*extension,
                    _ => false,
                },
                _ => false,
            },
            _ => false,
        },
        _ => false,
    }
}

/// What a set-up comes to, in mathematical form.
pub open spec fn set_up_view(r: Option<(bool, usize)>) -> Option<(bool, nat)> {
    match r {
        Some((refused, next)) => Some((refused, next as nat)),
        None => None,
    }
}

/// Sets up the decoding of a type in a field.
fn try_set_up(
    shape: &FieldShape,
    nested: bool,
    in_struct: bool,
    columns: &Vec<LeafColumn>,
    at: usize,
) -> (r: Option<(bool, usize)>)
    requires
        at <= columns.len(),
    ensures
        set_up_view(r) == set_up(*shape, nested, in_struct, columns@, at as nat),
        r matches Some((_, next)) ==> next <= columns.len(),
    decreases *shape,
{
    match shape {
        FieldShape::List { item, .. } => try_set_up(item, true, in_struct, columns, at),
        FieldShape::FixedSizeList { size, item, .. } => {
            if *size == 0 {
                None
            } else {
                try_set_up(item, true, in_struct, columns, at)
            }
        },
        FieldShape::Struct { extension, fields, .. } => {
            let empty: bool = match &**fields {
                FieldShapes::End => true,
                _ => false,
            };
            if nested && *extension || empty {
                None
            } else {
                try_set_up_fields(fields, columns, at, false)
            }
        },
        FieldShape::Mapping { entries, .. } => {
            if !in_struct && is_key_and_value(entries) {
                try_set_up(entries, true, in_struct, columns, at)
            } else {
                None
            }
        },
        _ => {
            let union: bool = match shape {
                FieldShape::Leaf { leaf, .. } => leaf.layout == PhysicalLayout::Union,
                _ => false,
            };
            if union {
                if in_struct {
                    None
                } else {
                    Some((true, columns.len()))
                }
            } else if at < columns.len() {
                match read_shape(shape, nested, columns[at]) {
                    Some(Reading::Broken) => None,
                    Some(Reading::Refused) => Some((true, at + 1)),
                    Some(_) => Some((false, at + 1)),
                    None => None,
                }
            } else {
                None
            }
        },
    }
}

/// Sets up the decoding of the fields of a struct.
fn try_set_up_fields(
    fields: &FieldShapes,
    columns: &Vec<LeafColumn>,
    at: usize,
    refused: bool,
) -> (r: Option<(bool, usize)>)
    requires
        at <= columns.len(),
    ensures
        set_up_view(r) == set_up_fields(*fields, columns@, at as nat, refused),
        r matches Some((_, next)) ==> next <= columns.len(),
    decreases *fields,
{
    match fields {
        FieldShapes::End => Some((refused, at)),
        FieldShapes::Field(field, rest) => match try_set_up(field, true, true, columns, at) {
            Some((too, next)) => try_set_up_fields(rest, columns, next, refused || too),
            None => None,
        },
    }
}

/// The most bytes that are set aside for a row before any is decoded.
pub open spec fn row_bytes(shape: FieldShape) -> usize {
    match shape {
        FieldShape::Leaf { leaf, .. } => match leaf.kind {
            LeafKind::FixedSizeBinary(size) => if size > 16 {
                size
            } else {
                16
            },
            _ => 16,
        },
        _ => 16,
    }
}

/// What comes of setting up a decoder of the columns of a field, for so many rows at once.
#[derive(Clone, Copy, Debug, PartialEq, Eq, Structural)]
pub enum SetUp {
    /// The columns are not those of the field, a type in it cannot be decoded, or no room can be asked
    /// for for the rows.
    Broken,
    /// A type in the field is refused.
    Refused,
    /// Pages can be looked at.
    Ready,
}

/// What comes of setting up a decoder of the columns of a field, for so many rows at once.
pub open spec fn decoder_set_up(shape: FieldShape, columns: Seq<LeafColumn>, rows: usize) -> SetUp {
    match set_up(shape, false, false, columns, 0) {
        Some((refused, next)) => if next != columns.len() || rows > isize::MAX as int / row_bytes(shape) as int {
            SetUp::Broken
        } else if refused {
            SetUp::Refused
        } else {
            SetUp::Ready
        },
        None => SetUp::Broken,
    }
}

/// Tells what comes of setting up a decoder of the columns of a field, for so many rows at once.
pub fn check_set_up(shape: &FieldShape, columns: &Vec<LeafColumn>, rows: usize) -> (r: SetUp)
    ensures
        r == decoder_set_up(*shape, columns@, rows),
{
    let width: usize = match shape {
        FieldShape::Leaf { leaf, .. } => match leaf.kind {
            LeafKind::FixedSizeBinary(size) => if size > 16 {
                size
            } else {
                16
            },
            _ => 16,
        },
        _ => 16,
    };
    match try_set_up(shape, false, false, columns, 0) {
        Some((refused, next)) => {
            if next != columns.len() || rows > isize::MAX as usize / width {
                SetUp::Broken
            } else if refused {
                SetUp::Refused
            } else {
                SetUp::Ready
            }
        },
        None => SetUp::Broken,
    }
}

/// The shape of a field of byte strings, none of them null.
pub open spec fn byte_string_shape() -> FieldShape {
    FieldShape::Leaf {
        nullable: false,
        extension: false,
        leaf: LeafType { kind: LeafKind::Plain, layout: PhysicalLayout::Binary, number: None },
    }
}

} // verus!
