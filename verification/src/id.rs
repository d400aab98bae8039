//! The id capability: an orderable, copyable, storable identity type that
//! can produce a first id and generate a successor from the last one
//! assigned. Numeric ids count up from zero.

use vstd::prelude::*;

use crate::storable::Storable;

verus! {

/// An id used for indexing stored rows.
///
/// `below` orders ids; `can_advance` says whether a strictly larger id
/// exists after `self`, and `next` names it. The proof obligations make the
/// order strict and transitive, which is what keeps engine-generated ids
/// unique: every stored id stays at or below the table's last assigned id,
/// and the next generated id lies strictly above it.
pub trait IdType: Storable + Copy + DeepView<V = Self> {
    /// A strict order on ids.
    spec fn below(self, other: Self) -> bool;

    /// Whether an id after `self` exists.
    spec fn can_advance(self) -> bool;

    /// The id generated after `self`.
    spec fn next(self) -> Self;

    /// The first id a fresh table hands out.
    spec fn first() -> Self;

    /// The order is strict and transitive, and the generated successor lies
    /// strictly above its predecessor.
    proof fn lemma_order(a: Self, b: Self, c: Self)
        ensures
            a.below(b) && b.below(c) ==> a.below(c),
            a.below(b) ==> a != b,
            a.can_advance() ==> a.below(a.next()),
    ;

    /// The id following `last`. Callers that care which id comes out must
    /// know that an id after `last` exists; numeric ids wrap around at the
    /// top of their range like the built-in wrapping addition.
    fn generate(last: Self) -> (r: Self)
        ensures
            last.can_advance() ==> r == last.next(),
    ;

    /// An id is its own model.
    proof fn lemma_view_id(a: Self)
        ensures
            a.deep_view() == a,
    ;

    /// The first id for a fresh table.
    fn initial() -> (r: Self)
        ensures
            r == Self::first(),
    ;

    /// Whether two ids are the same.
    fn id_eq(a: Self, b: Self) -> (r: bool)
        ensures
            r == (a == b),
    ;
}

impl IdType for u32 {
    open spec fn below(self, other: Self) -> bool {
        self < other
    }

    open spec fn can_advance(self) -> bool {
        self < u32::MAX
    }

    open spec fn next(self) -> Self {
        (self + 1) as u32
    }

    open spec fn first() -> Self {
        0
    }

    proof fn lemma_order(a: Self, b: Self, c: Self) {
    }

    proof fn lemma_view_id(a: Self) {
    }

    fn generate(last: Self) -> (r: Self) {
        last.wrapping_add(1)
    }

    fn initial() -> (r: Self) {
        0
    }

    fn id_eq(a: Self, b: Self) -> (r: bool) {
        a == b
    }
}

impl IdType for u64 {
    open spec fn below(self, other: Self) -> bool {
        self < other
    }

    open spec fn can_advance(self) -> bool {
        self < u64::MAX
    }

    open spec fn next(self) -> Self {
        (self + 1) as u64
    }

    open spec fn first() -> Self {
        0
    }

    proof fn lemma_order(a: Self, b: Self, c: Self) {
    }

    proof fn lemma_view_id(a: Self) {
    }

    fn generate(last: Self) -> (r: Self) {
        last.wrapping_add(1)
    }

    fn initial() -> (r: Self) {
        0
    }

    fn id_eq(a: Self, b: Self) -> (r: bool) {
        a == b
    }
}

impl IdType for i32 {
    open spec fn below(self, other: Self) -> bool {
        self < other
    }

    open spec fn can_advance(self) -> bool {
        self < i32::MAX
    }

    open spec fn next(self) -> Self {
        (self + 1) as i32
    }

    open spec fn first() -> Self {
        0
    }

    proof fn lemma_order(a: Self, b: Self, c: Self) {
    }

    proof fn lemma_view_id(a: Self) {
    }

    fn generate(last: Self) -> (r: Self) {
        last.wrapping_add(1)
    }

    fn initial() -> (r: Self) {
        0
    }

    fn id_eq(a: Self, b: Self) -> (r: bool) {
        a == b
    }
}

impl IdType for i64 {
    open spec fn below(self, other: Self) -> bool {
        self < other
    }

    open spec fn can_advance(self) -> bool {
        self < i64::MAX
    }

    open spec fn next(self) -> Self {
        (self + 1) as i64
    }

    open spec fn first() -> Self {
        0
    }

    proof fn lemma_order(a: Self, b: Self, c: Self) {
    }

    proof fn lemma_view_id(a: Self) {
    }

    fn generate(last: Self) -> (r: Self) {
        last.wrapping_add(1)
    }

    fn initial() -> (r: Self) {
        0
    }

    fn id_eq(a: Self, b: Self) -> (r: bool) {
        a == b
    }
}

impl IdType for u8 {
    open spec fn below(self, other: Self) -> bool {
        self < other
    }

    open spec fn can_advance(self) -> bool {
        self < u8::MAX
    }

    open spec fn next(self) -> Self {
        (self + 1) as u8
    }

    open spec fn first() -> Self {
        0
    }

    proof fn lemma_order(a: Self, b: Self, c: Self) {
    }

    proof fn lemma_view_id(a: Self) {
    }

    fn generate(last: Self) -> (r: Self) {
        last.wrapping_add(1)
    }

    fn initial() -> (r: Self) {
        0
    }

    fn id_eq(a: Self, b: Self) -> (r: bool) {
        a == b
    }
}

impl IdType for u16 {
    open spec fn below(self, other: Self) -> bool {
        self < other
    }

    open spec fn can_advance(self) -> bool {
        self < u16::MAX
    }

    open spec fn next(self) -> Self {
        (self + 1) as u16
    }

    open spec fn first() -> Self {
        0
    }

    proof fn lemma_order(a: Self, b: Self, c: Self) {
    }

    proof fn lemma_view_id(a: Self) {
    }

    fn generate(last: Self) -> (r: Self) {
        last.wrapping_add(1)
    }

    fn initial() -> (r: Self) {
        0
    }

    fn id_eq(a: Self, b: Self) -> (r: bool) {
        a == b
    }
}

impl IdType for u128 {
    open spec fn below(self, other: Self) -> bool {
        self < other
    }

    open spec fn can_advance(self) -> bool {
        self < u128::MAX
    }

    open spec fn next(self) -> Self {
        (self + 1) as u128
    }

    open spec fn first() -> Self {
        0
    }

    proof fn lemma_order(a: Self, b: Self, c: Self) {
    }

    proof fn lemma_view_id(a: Self) {
    }

    fn generate(last: Self) -> (r: Self) {
        last.wrapping_add(1)
    }

    fn initial() -> (r: Self) {
        0
    }

    fn id_eq(a: Self, b: Self) -> (r: bool) {
        a == b
    }
}

impl IdType for i8 {
    open spec fn below(self, other: Self) -> bool {
        self < other
    }

    open spec fn can_advance(self) -> bool {
        self < i8::MAX
    }

    open spec fn next(self) -> Self {
        (self + 1) as i8
    }

    open spec fn first() -> Self {
        0
    }

    proof fn lemma_order(a: Self, b: Self, c: Self) {
    }

    proof fn lemma_view_id(a: Self) {
    }

    fn generate(last: Self) -> (r: Self) {
        last.wrapping_add(1)
    }

    fn initial() -> (r: Self) {
        0
    }

    fn id_eq(a: Self, b: Self) -> (r: bool) {
        a == b
    }
}

impl IdType for i16 {
    open spec fn below(self, other: Self) -> bool {
        self < other
    }

    open spec fn can_advance(self) -> bool {
        self < i16::MAX
    }

    open spec fn next(self) -> Self {
        (self + 1) as i16
    }

    open spec fn first() -> Self {
        0
    }

    proof fn lemma_order(a: Self, b: Self, c: Self) {
    }

    proof fn lemma_view_id(a: Self) {
    }

    fn generate(last: Self) -> (r: Self) {
        last.wrapping_add(1)
    }

    fn initial() -> (r: Self) {
        0
    }

    fn id_eq(a: Self, b: Self) -> (r: bool) {
        a == b
    }
}

impl IdType for i128 {
    open spec fn below(self, other: Self) -> bool {
        self < other
    }

    open spec fn can_advance(self) -> bool {
        self < i128::MAX
    }

    open spec fn next(self) -> Self {
        (self + 1) as i128
    }

    open spec fn first() -> Self {
        0
    }

    proof fn lemma_order(a: Self, b: Self, c: Self) {
    }

    proof fn lemma_view_id(a: Self) {
    }

    fn generate(last: Self) -> (r: Self) {
        last.wrapping_add(1)
    }

    fn initial() -> (r: Self) {
        0
    }

    fn id_eq(a: Self, b: Self) -> (r: bool) {
        a == b
    }
}

impl IdType for usize {
    open spec fn below(self, other: Self) -> bool {
        self < other
    }

    open spec fn can_advance(self) -> bool {
        self < usize::MAX
    }

    open spec fn next(self) -> Self {
        (self + 1) as usize
    }

    open spec fn first() -> Self {
        0
    }

    proof fn lemma_order(a: Self, b: Self, c: Self) {
    }

    proof fn lemma_view_id(a: Self) {
    }

    fn generate(last: Self) -> (r: Self) {
        last.wrapping_add(1)
    }

    fn initial() -> (r: Self) {
        0
    }

    fn id_eq(a: Self, b: Self) -> (r: bool) {
        a == b
    }
}

impl IdType for isize {
    open spec fn below(self, other: Self) -> bool {
        self < other
    }

    open spec fn can_advance(self) -> bool {
        self < isize::MAX
    }

    open spec fn next(self) -> Self {
        (self + 1) as isize
    }

    open spec fn first() -> Self {
        0
    }

    proof fn lemma_order(a: Self, b: Self, c: Self) {
    }

    proof fn lemma_view_id(a: Self) {
    }

    fn generate(last: Self) -> (r: Self) {
        last.wrapping_add(1)
    }

    fn initial() -> (r: Self) {
        0
    }

    fn id_eq(a: Self, b: Self) -> (r: bool) {
        a == b
    }
}

} // verus!
