//! Keys: what a type must offer to be stored in a frozen collection.

use crate::casts::int_code;
use crate::traits::byte_hasher::ByteHasher;
use crate::traits::byte_hasher::bytes_eq;
use crate::traits::int_value::IntValue;
use vstd::prelude::*;

verus! {

/// The kinds of key that the collections tell apart when they choose a
/// representation.
#[derive(Clone, Copy, Debug, PartialEq, Eq, Structural)]
pub enum KeyCategory {
    /// A fixed-width integer.
    Integer,
    /// A string of bytes.
    ByteSlice,
    /// Anything else: only equality and a hash of the whole key are used.
    Opaque,
}

/// What a key is, as a value: the model of [`KeyForm`].
pub enum KeyShape {
    /// An integer key and its value.
    Integer(int),
    /// A byte-string key and its bytes.
    ByteSlice(Seq<u8>),
    /// A key of another kind.
    Opaque,
}

/// What a key is, as the collections read it.
pub enum KeyForm<'a> {
    /// An integer key and its value.
    Integer(IntValue),
    /// A byte-string key and its bytes.
    ByteSlice(&'a [u8]),
    /// A key of another kind.
    Opaque,
}

impl<'a> View for KeyForm<'a> {
    type V = KeyShape;

    open spec fn view(&self) -> KeyShape {
        match *self {
            KeyForm::Integer(x) => KeyShape::Integer(x@),
            KeyForm::ByteSlice(b) => KeyShape::ByteSlice(b@),
            KeyForm::Opaque => KeyShape::Opaque,
        }
    }
}

/// The category that a shape belongs to.
pub open spec fn category_of(shape: KeyShape) -> KeyCategory {
    match shape {
        KeyShape::Integer(_) => KeyCategory::Integer,
        KeyShape::ByteSlice(_) => KeyCategory::ByteSlice,
        KeyShape::Opaque => KeyCategory::Opaque,
    }
}

/// The bytes that are hashed for an integer key: its 64-bit code, low byte
/// first.
pub open spec fn int_hash_input(x: int) -> Seq<u8> {
    vstd::bytes::spec_u64_to_le_bytes(int_code(x))
}

/// A key of a frozen collection.
///
/// Keys are compared and hashed by their view. A type states its category
/// once, for all its values; an integer type maps its values one to one to
/// integers of at most 128 bits, with or without a sign, a byte-string type
/// gives the bytes of each value. A type that does neither is opaque.
pub trait Key: View + Sized {
    /// The category of every key of this type.
    spec fn category_spec() -> KeyCategory;

    /// What the key with view `v` is.
    spec fn shape(v: Self::V) -> KeyShape;

    /// The bytes that are hashed when the whole key is hashed.
    spec fn hash_input(v: Self::V) -> Seq<u8>;

    /// The category of every key of this type.
    fn category() -> (c: KeyCategory)
        ensures
            c == Self::category_spec(),
    ;

    /// What this key is.
    fn form(&self) -> (f: KeyForm<'_>)
        ensures
            f@ == Self::shape(self@),
    ;

    /// Whether two keys are the same key.
    fn key_eq(&self, other: &Self) -> (b: bool)
        ensures
            b == (self@ == other@),
    ;

    /// Hashes the whole key.
    fn hash_code<BH: ByteHasher>(&self, bh: &BH) -> (h: u64)
        ensures
            h == bh.spec_hash_bytes(Self::hash_input(self@)),
    ;

    /// Every value has a shape of the type's category; integer shapes fit in
    /// 128 bits and belong to one key only.
    proof fn lemma_shape(a: Self::V, b: Self::V)
        ensures
            category_of(Self::shape(a)) == Self::category_spec(),
            Self::shape(a) matches KeyShape::Integer(x) ==> i128::MIN <= x <= u128::MAX,
            Self::shape(a) is Integer && Self::shape(a) == Self::shape(b) ==> a == b,
    ;
}

/// The integer value of a key, or zero for a key that is no integer.
pub open spec fn int_value_of(shape: KeyShape) -> int {
    match shape {
        KeyShape::Integer(x) => x,
        _ => 0,
    }
}

/// The bytes of a key, or none for a key that is no byte string.
pub open spec fn bytes_of(shape: KeyShape) -> Seq<u8> {
    match shape {
        KeyShape::ByteSlice(b) => b,
        _ => Seq::empty(),
    }
}

/// Hashes an integer key by the bytes of its 64-bit code.
pub fn hash_int<BH: ByteHasher>(x: IntValue, bh: &BH) -> (h: u64)
    ensures
        h == bh.spec_hash_bytes(int_hash_input(x@)),
{
    let code = x.code();
    let bytes = vstd::bytes::u64_to_le_bytes(code);
    bh.hash_bytes(bytes.as_slice())
}

impl Key for u8 {
    open spec fn category_spec() -> KeyCategory {
        KeyCategory::Integer
    }

    open spec fn shape(v: u8) -> KeyShape {
        KeyShape::Integer(v as int)
    }

    open spec fn hash_input(v: u8) -> Seq<u8> {
        int_hash_input(v as int)
    }

    fn category() -> (c: KeyCategory) {
        KeyCategory::Integer
    }

    fn form(&self) -> (f: KeyForm<'_>) {
        KeyForm::Integer(IntValue::Unsigned(*self as u128))
    }

    fn key_eq(&self, other: &Self) -> (b: bool) {
        *self == *other
    }

    fn hash_code<BH: ByteHasher>(&self, bh: &BH) -> (h: u64) {
        hash_int(IntValue::Unsigned(*self as u128), bh)
    }

    proof fn lemma_shape(a: u8, b: u8) {
    }
}

impl Key for u16 {
    open spec fn category_spec() -> KeyCategory {
        KeyCategory::Integer
    }

    open spec fn shape(v: u16) -> KeyShape {
        KeyShape::Integer(v as int)
    }

    open spec fn hash_input(v: u16) -> Seq<u8> {
        int_hash_input(v as int)
    }

    fn category() -> (c: KeyCategory) {
        KeyCategory::Integer
    }

    fn form(&self) -> (f: KeyForm<'_>) {
        KeyForm::Integer(IntValue::Unsigned(*self as u128))
    }

    fn key_eq(&self, other: &Self) -> (b: bool) {
        *self == *other
    }

    fn hash_code<BH: ByteHasher>(&self, bh: &BH) -> (h: u64) {
        hash_int(IntValue::Unsigned(*self as u128), bh)
    }

    proof fn lemma_shape(a: u16, b: u16) {
    }
}

impl Key for u32 {
    open spec fn category_spec() -> KeyCategory {
        KeyCategory::Integer
    }

    open spec fn shape(v: u32) -> KeyShape {
        KeyShape::Integer(v as int)
    }

    open spec fn hash_input(v: u32) -> Seq<u8> {
        int_hash_input(v as int)
    }

    fn category() -> (c: KeyCategory) {
        KeyCategory::Integer
    }

    fn form(&self) -> (f: KeyForm<'_>) {
        KeyForm::Integer(IntValue::Unsigned(*self as u128))
    }

    fn key_eq(&self, other: &Self) -> (b: bool) {
        *self == *other
    }

    fn hash_code<BH: ByteHasher>(&self, bh: &BH) -> (h: u64) {
        hash_int(IntValue::Unsigned(*self as u128), bh)
    }

    proof fn lemma_shape(a: u32, b: u32) {
    }
}

impl Key for u64 {
    open spec fn category_spec() -> KeyCategory {
        KeyCategory::Integer
    }

    open spec fn shape(v: u64) -> KeyShape {
        KeyShape::Integer(v as int)
    }

    open spec fn hash_input(v: u64) -> Seq<u8> {
        int_hash_input(v as int)
    }

    fn category() -> (c: KeyCategory) {
        KeyCategory::Integer
    }

    fn form(&self) -> (f: KeyForm<'_>) {
        KeyForm::Integer(IntValue::Unsigned(*self as u128))
    }

    fn key_eq(&self, other: &Self) -> (b: bool) {
        *self == *other
    }

    fn hash_code<BH: ByteHasher>(&self, bh: &BH) -> (h: u64) {
        hash_int(IntValue::Unsigned(*self as u128), bh)
    }

    proof fn lemma_shape(a: u64, b: u64) {
    }
}

impl Key for usize {
    open spec fn category_spec() -> KeyCategory {
        KeyCategory::Integer
    }

    open spec fn shape(v: usize) -> KeyShape {
        KeyShape::Integer(v as int)
    }

    open spec fn hash_input(v: usize) -> Seq<u8> {
        int_hash_input(v as int)
    }

    fn category() -> (c: KeyCategory) {
        KeyCategory::Integer
    }

    fn form(&self) -> (f: KeyForm<'_>) {
        KeyForm::Integer(IntValue::Unsigned(*self as u128))
    }

    fn key_eq(&self, other: &Self) -> (b: bool) {
        *self == *other
    }

    fn hash_code<BH: ByteHasher>(&self, bh: &BH) -> (h: u64) {
        hash_int(IntValue::Unsigned(*self as u128), bh)
    }

    proof fn lemma_shape(a: usize, b: usize) {
    }
}

impl Key for i8 {
    open spec fn category_spec() -> KeyCategory {
        KeyCategory::Integer
    }

    open spec fn shape(v: i8) -> KeyShape {
        KeyShape::Integer(v as int)
    }

    open spec fn hash_input(v: i8) -> Seq<u8> {
        int_hash_input(v as int)
    }

    fn category() -> (c: KeyCategory) {
        KeyCategory::Integer
    }

    fn form(&self) -> (f: KeyForm<'_>) {
        KeyForm::Integer(IntValue::Signed(*self as i128))
    }

    fn key_eq(&self, other: &Self) -> (b: bool) {
        *self == *other
    }

    fn hash_code<BH: ByteHasher>(&self, bh: &BH) -> (h: u64) {
        hash_int(IntValue::Signed(*self as i128), bh)
    }

    proof fn lemma_shape(a: i8, b: i8) {
    }
}

impl Key for i16 {
    open spec fn category_spec() -> KeyCategory {
        KeyCategory::Integer
    }

    open spec fn shape(v: i16) -> KeyShape {
        KeyShape::Integer(v as int)
    }

    open spec fn hash_input(v: i16) -> Seq<u8> {
        int_hash_input(v as int)
    }

    fn category() -> (c: KeyCategory) {
        KeyCategory::Integer
    }

    fn form(&self) -> (f: KeyForm<'_>) {
        KeyForm::Integer(IntValue::Signed(*self as i128))
    }

    fn key_eq(&self, other: &Self) -> (b: bool) {
        *self == *other
    }

    fn hash_code<BH: ByteHasher>(&self, bh: &BH) -> (h: u64) {
        hash_int(IntValue::Signed(*self as i128), bh)
    }

    proof fn lemma_shape(a: i16, b: i16) {
    }
}

impl Key for i32 {
    open spec fn category_spec() -> KeyCategory {
        KeyCategory::Integer
    }

    open spec fn shape(v: i32) -> KeyShape {
        KeyShape::Integer(v as int)
    }

    open spec fn hash_input(v: i32) -> Seq<u8> {
        int_hash_input(v as int)
    }

    fn category() -> (c: KeyCategory) {
        KeyCategory::Integer
    }

    fn form(&self) -> (f: KeyForm<'_>) {
        KeyForm::Integer(IntValue::Signed(*self as i128))
    }

    fn key_eq(&self, other: &Self) -> (b: bool) {
        *self == *other
    }

    fn hash_code<BH: ByteHasher>(&self, bh: &BH) -> (h: u64) {
        hash_int(IntValue::Signed(*self as i128), bh)
    }

    proof fn lemma_shape(a: i32, b: i32) {
    }
}

impl Key for i64 {
    open spec fn category_spec() -> KeyCategory {
        KeyCategory::Integer
    }

    open spec fn shape(v: i64) -> KeyShape {
        KeyShape::Integer(v as int)
    }

    open spec fn hash_input(v: i64) -> Seq<u8> {
        int_hash_input(v as int)
    }

    fn category() -> (c: KeyCategory) {
        KeyCategory::Integer
    }

    fn form(&self) -> (f: KeyForm<'_>) {
        KeyForm::Integer(IntValue::Signed(*self as i128))
    }

    fn key_eq(&self, other: &Self) -> (b: bool) {
        *self == *other
    }

    fn hash_code<BH: ByteHasher>(&self, bh: &BH) -> (h: u64) {
        hash_int(IntValue::Signed(*self as i128), bh)
    }

    proof fn lemma_shape(a: i64, b: i64) {
    }
}

impl Key for isize {
    open spec fn category_spec() -> KeyCategory {
        KeyCategory::Integer
    }

    open spec fn shape(v: isize) -> KeyShape {
        KeyShape::Integer(v as int)
    }

    open spec fn hash_input(v: isize) -> Seq<u8> {
        int_hash_input(v as int)
    }

    fn category() -> (c: KeyCategory) {
        KeyCategory::Integer
    }

    fn form(&self) -> (f: KeyForm<'_>) {
        KeyForm::Integer(IntValue::Signed(*self as i128))
    }

    fn key_eq(&self, other: &Self) -> (b: bool) {
        *self == *other
    }

    fn hash_code<BH: ByteHasher>(&self, bh: &BH) -> (h: u64) {
        hash_int(IntValue::Signed(*self as i128), bh)
    }

    proof fn lemma_shape(a: isize, b: isize) {
    }
}

impl Key for i128 {
    open spec fn category_spec() -> KeyCategory {
        KeyCategory::Integer
    }

    open spec fn shape(v: i128) -> KeyShape {
        KeyShape::Integer(v as int)
    }

    open spec fn hash_input(v: i128) -> Seq<u8> {
        int_hash_input(v as int)
    }

    fn category() -> (c: KeyCategory) {
        KeyCategory::Integer
    }

    fn form(&self) -> (f: KeyForm<'_>) {
        KeyForm::Integer(IntValue::Signed(*self))
    }

    fn key_eq(&self, other: &Self) -> (b: bool) {
        *self == *other
    }

    fn hash_code<BH: ByteHasher>(&self, bh: &BH) -> (h: u64) {
        hash_int(IntValue::Signed(*self), bh)
    }

    proof fn lemma_shape(a: i128, b: i128) {
    }
}

impl Key for u128 {
    open spec fn category_spec() -> KeyCategory {
        KeyCategory::Integer
    }

    open spec fn shape(v: u128) -> KeyShape {
        KeyShape::Integer(v as int)
    }

    open spec fn hash_input(v: u128) -> Seq<u8> {
        int_hash_input(v as int)
    }

    fn category() -> (c: KeyCategory) {
        KeyCategory::Integer
    }

    fn form(&self) -> (f: KeyForm<'_>) {
        KeyForm::Integer(IntValue::Unsigned(*self))
    }

    fn key_eq(&self, other: &Self) -> (b: bool) {
        *self == *other
    }

    fn hash_code<BH: ByteHasher>(&self, bh: &BH) -> (h: u64) {
        hash_int(IntValue::Unsigned(*self), bh)
    }

    proof fn lemma_shape(a: u128, b: u128) {
    }
}

impl Key for String {
    open spec fn category_spec() -> KeyCategory {
        KeyCategory::ByteSlice
    }

    open spec fn shape(v: Seq<char>) -> KeyShape {
        KeyShape::ByteSlice(vstd::utf8::encode_utf8(v))
    }

    open spec fn hash_input(v: Seq<char>) -> Seq<u8> {
        vstd::utf8::encode_utf8(v)
    }

    fn category() -> (c: KeyCategory) {
        KeyCategory::ByteSlice
    }

    fn form(&self) -> (f: KeyForm<'_>) {
        KeyForm::ByteSlice(self.as_str().as_bytes())
    }

    fn key_eq(&self, other: &Self) -> (b: bool) {
        *self == *other
    }

    fn hash_code<BH: ByteHasher>(&self, bh: &BH) -> (h: u64) {
        bh.hash_bytes(self.as_str().as_bytes())
    }

    proof fn lemma_shape(a: Seq<char>, b: Seq<char>) {
    }
}

impl<'a> Key for &'a str {
    open spec fn category_spec() -> KeyCategory {
        KeyCategory::ByteSlice
    }

    open spec fn shape(v: Seq<char>) -> KeyShape {
        KeyShape::ByteSlice(vstd::utf8::encode_utf8(v))
    }

    open spec fn hash_input(v: Seq<char>) -> Seq<u8> {
        vstd::utf8::encode_utf8(v)
    }

    fn category() -> (c: KeyCategory) {
        KeyCategory::ByteSlice
    }

    fn form(&self) -> (f: KeyForm<'_>) {
        KeyForm::ByteSlice(self.as_bytes())
    }

    fn key_eq(&self, other: &Self) -> (b: bool) {
        proof {
            // strings with the same bytes are the same string
            vstd::utf8::encode_utf8_decode_utf8(self@);
            vstd::utf8::encode_utf8_decode_utf8(other@);
        }
        bytes_eq(self.as_bytes(), other.as_bytes())
    }

    fn hash_code<BH: ByteHasher>(&self, bh: &BH) -> (h: u64) {
        bh.hash_bytes(self.as_bytes())
    }

    proof fn lemma_shape(a: Seq<char>, b: Seq<char>) {
    }
}

impl Key for Vec<u8> {
    open spec fn category_spec() -> KeyCategory {
        KeyCategory::ByteSlice
    }

    open spec fn shape(v: Seq<u8>) -> KeyShape {
        KeyShape::ByteSlice(v)
    }

    open spec fn hash_input(v: Seq<u8>) -> Seq<u8> {
        v
    }

    fn category() -> (c: KeyCategory) {
        KeyCategory::ByteSlice
    }

    fn form(&self) -> (f: KeyForm<'_>) {
        KeyForm::ByteSlice(self.as_slice())
    }

    fn key_eq(&self, other: &Self) -> (b: bool) {
        bytes_eq(self.as_slice(), other.as_slice())
    }

    fn hash_code<BH: ByteHasher>(&self, bh: &BH) -> (h: u64) {
        bh.hash_bytes(self.as_slice())
    }

    proof fn lemma_shape(a: Seq<u8>, b: Seq<u8>) {
    }
}

impl Key for bool {
    open spec fn category_spec() -> KeyCategory {
        KeyCategory::Opaque
    }

    open spec fn shape(v: bool) -> KeyShape {
        KeyShape::Opaque
    }

    open spec fn hash_input(v: bool) -> Seq<u8> {
        int_hash_input(if v { 1 } else { 0 })
    }

    fn category() -> (c: KeyCategory) {
        KeyCategory::Opaque
    }

    fn form(&self) -> (f: KeyForm<'_>) {
        KeyForm::Opaque
    }

    fn key_eq(&self, other: &Self) -> (b: bool) {
        *self == *other
    }

    fn hash_code<BH: ByteHasher>(&self, bh: &BH) -> (h: u64) {
        if *self {
            hash_int(IntValue::Unsigned(1), bh)
        } else {
            hash_int(IntValue::Unsigned(0), bh)
        }
    }

    proof fn lemma_shape(a: bool, b: bool) {
    }
}

impl Key for char {
    open spec fn category_spec() -> KeyCategory {
        KeyCategory::Opaque
    }

    open spec fn shape(v: char) -> KeyShape {
        KeyShape::Opaque
    }

    open spec fn hash_input(v: char) -> Seq<u8> {
        int_hash_input(v as u32 as int)
    }

    fn category() -> (c: KeyCategory) {
        KeyCategory::Opaque
    }

    fn form(&self) -> (f: KeyForm<'_>) {
        KeyForm::Opaque
    }

    fn key_eq(&self, other: &Self) -> (b: bool) {
        *self == *other
    }

    fn hash_code<BH: ByteHasher>(&self, bh: &BH) -> (h: u64) {
        hash_int(IntValue::Unsigned(*self as u32 as u128), bh)
    }

    proof fn lemma_shape(a: char, b: char) {
    }
}

} // verus!
