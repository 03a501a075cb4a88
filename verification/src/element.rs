use vstd::prelude::*;

verus! {

/// A fixed-width integer kind that a matrix can hold.
///
/// Every element stands for one mathematical integer, its `value`, and the
/// kind covers exactly the integers from `min_value` to `max_value`. All
/// arithmetic of the library is stated over these values; the executable
/// code reaches them through `i128`, which is wide enough for every kind.
pub trait Element: Copy {
    /// The integer that this element stands for.
    spec fn value(self) -> int;

    /// The smallest integer of this kind.
    spec fn min_value() -> int;

    /// The largest integer of this kind.
    spec fn max_value() -> int;

    /// Every element lies within the bounds of its kind.
    proof fn lemma_value_in_range(self)
        ensures
            Self::min_value() <= self.value() <= Self::max_value(),
    ;

    /// Two elements with the same value are the same element.
    proof fn lemma_value_injective(self, other: Self)
        requires
            self.value() == other.value(),
        ensures
            self == other,
    ;

    /// Every kind holds zero and one, and fits in 64 bits, signed or not.
    proof fn lemma_bounds()
        ensures
            i64::MIN <= Self::min_value() <= 0,
            1 <= Self::max_value() <= u64::MAX,
    ;

    /// The value of this element.
    fn to_wide(self) -> (w: i128)
        ensures
            w == self.value(),
    ;

    /// The element whose value is `w`.
    fn from_wide(w: i128) -> (x: Self)
        requires
            Self::min_value() <= w <= Self::max_value(),
        ensures
            x.value() == w,
    ;

    /// The smallest value of this kind.
    fn lower() -> (w: i128)
        ensures
            w == Self::min_value(),
    ;

    /// The largest value of this kind.
    fn upper() -> (w: i128)
        ensures
            w == Self::max_value(),
    ;
}

/// Whether an element of kind `T` can hold the integer `v`.
pub open spec fn fits<T: Element>(v: int) -> bool {
    T::min_value() <= v <= T::max_value()
}

impl Element for i8 {
    open spec fn value(self) -> int {
        self as int
    }

    open spec fn min_value() -> int {
        i8::MIN as int
    }

    open spec fn max_value() -> int {
        i8::MAX as int
    }

    proof fn lemma_value_in_range(self) {
    }

    proof fn lemma_value_injective(self, other: Self) {
    }

    proof fn lemma_bounds() {
    }

    fn to_wide(self) -> (w: i128) {
        self as i128
    }

    fn from_wide(w: i128) -> (x: Self) {
        w as i8
    }

    fn lower() -> (w: i128) {
        i8::MIN as i128
    }

    fn upper() -> (w: i128) {
        i8::MAX as i128
    }
}

impl Element for i16 {
    open spec fn value(self) -> int {
        self as int
    }

    open spec fn min_value() -> int {
        i16::MIN as int
    }

    open spec fn max_value() -> int {
        i16::MAX as int
    }

    proof fn lemma_value_in_range(self) {
    }

    proof fn lemma_value_injective(self, other: Self) {
    }

    proof fn lemma_bounds() {
    }

    fn to_wide(self) -> (w: i128) {
        self as i128
    }

    fn from_wide(w: i128) -> (x: Self) {
        w as i16
    }

    fn lower() -> (w: i128) {
        i16::MIN as i128
    }

    fn upper() -> (w: i128) {
        i16::MAX as i128
    }
}

impl Element for i32 {
    open spec fn value(self) -> int {
        self as int
    }

    open spec fn min_value() -> int {
        i32::MIN as int
    }

    open spec fn max_value() -> int {
        i32::MAX as int
    }

    proof fn lemma_value_in_range(self) {
    }

    proof fn lemma_value_injective(self, other: Self) {
    }

    proof fn lemma_bounds() {
    }

    fn to_wide(self) -> (w: i128) {
        self as i128
    }

    fn from_wide(w: i128) -> (x: Self) {
        w as i32
    }

    fn lower() -> (w: i128) {
        i32::MIN as i128
    }

    fn upper() -> (w: i128) {
        i32::MAX as i128
    }
}

impl Element for i64 {
    open spec fn value(self) -> int {
        self as int
    }

    open spec fn min_value() -> int {
        i64::MIN as int
    }

    open spec fn max_value() -> int {
        i64::MAX as int
    }

    proof fn lemma_value_in_range(self) {
    }

    proof fn lemma_value_injective(self, other: Self) {
    }

    proof fn lemma_bounds() {
    }

    fn to_wide(self) -> (w: i128) {
        self as i128
    }

    fn from_wide(w: i128) -> (x: Self) {
        w as i64
    }

    fn lower() -> (w: i128) {
        i64::MIN as i128
    }

    fn upper() -> (w: i128) {
        i64::MAX as i128
    }
}

impl Element for isize {
    open spec fn value(self) -> int {
        self as int
    }

    open spec fn min_value() -> int {
        isize::MIN as int
    }

    open spec fn max_value() -> int {
        isize::MAX as int
    }

    proof fn lemma_value_in_range(self) {
    }

    proof fn lemma_value_injective(self, other: Self) {
    }

    proof fn lemma_bounds() {
    }

    fn to_wide(self) -> (w: i128) {
        self as i128
    }

    fn from_wide(w: i128) -> (x: Self) {
        w as isize
    }

    fn lower() -> (w: i128) {
        isize::MIN as i128
    }

    fn upper() -> (w: i128) {
        isize::MAX as i128
    }
}

impl Element for u8 {
    open spec fn value(self) -> int {
        self as int
    }

    open spec fn min_value() -> int {
        u8::MIN as int
    }

    open spec fn max_value() -> int {
        u8::MAX as int
    }

    proof fn lemma_value_in_range(self) {
    }

    proof fn lemma_value_injective(self, other: Self) {
    }

    proof fn lemma_bounds() {
    }

    fn to_wide(self) -> (w: i128) {
        self as i128
    }

    fn from_wide(w: i128) -> (x: Self) {
        w as u8
    }

    fn lower() -> (w: i128) {
        u8::MIN as i128
    }

    fn upper() -> (w: i128) {
        u8::MAX as i128
    }
}

impl Element for u16 {
    open spec fn value(self) -> int {
        self as int
    }

    open spec fn min_value() -> int {
        u16::MIN as int
    }

    open spec fn max_value() -> int {
        u16::MAX as int
    }

    proof fn lemma_value_in_range(self) {
    }

    proof fn lemma_value_injective(self, other: Self) {
    }

    proof fn lemma_bounds() {
    }

    fn to_wide(self) -> (w: i128) {
        self as i128
    }

    fn from_wide(w: i128) -> (x: Self) {
        w as u16
    }

    fn lower() -> (w: i128) {
        u16::MIN as i128
    }

    fn upper() -> (w: i128) {
        u16::MAX as i128
    }
}

impl Element for u32 {
    open spec fn value(self) -> int {
        self as int
    }

    open spec fn min_value() -> int {
        u32::MIN as int
    }

    open spec fn max_value() -> int {
        u32::MAX as int
    }

    proof fn lemma_value_in_range(self) {
    }

    proof fn lemma_value_injective(self, other: Self) {
    }

    proof fn lemma_bounds() {
    }

    fn to_wide(self) -> (w: i128) {
        self as i128
    }

    fn from_wide(w: i128) -> (x: Self) {
        w as u32
    }

    fn lower() -> (w: i128) {
        u32::MIN as i128
    }

    fn upper() -> (w: i128) {
        u32::MAX as i128
    }
}

impl Element for u64 {
    open spec fn value(self) -> int {
        self as int
    }

    open spec fn min_value() -> int {
        u64::MIN as int
    }

    open spec fn max_value() -> int {
        u64::MAX as int
    }

    proof fn lemma_value_in_range(self) {
    }

    proof fn lemma_value_injective(self, other: Self) {
    }

    proof fn lemma_bounds() {
    }

    fn to_wide(self) -> (w: i128) {
        self as i128
    }

    fn from_wide(w: i128) -> (x: Self) {
        w as u64
    }

    fn lower() -> (w: i128) {
        u64::MIN as i128
    }

    fn upper() -> (w: i128) {
        u64::MAX as i128
    }
}

impl Element for usize {
    open spec fn value(self) -> int {
        self as int
    }

    open spec fn min_value() -> int {
        usize::MIN as int
    }

    open spec fn max_value() -> int {
        usize::MAX as int
    }

    proof fn lemma_value_in_range(self) {
    }

    proof fn lemma_value_injective(self, other: Self) {
    }

    proof fn lemma_bounds() {
    }

    fn to_wide(self) -> (w: i128) {
        self as i128
    }

    fn from_wide(w: i128) -> (x: Self) {
        w as usize
    }

    fn lower() -> (w: i128) {
        usize::MIN as i128
    }

    fn upper() -> (w: i128) {
        usize::MAX as i128
    }
}

} // verus!
