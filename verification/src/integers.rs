//! The integer types are totally ordered, and their equivalent values are
//! equal: what a caller needs to know to sort them.

use vstd::prelude::*;
use crate::order::{equivalent_means_equal, le, lt, total_order, total_order_laws};

verus! {

/// `u8` is totally ordered, and equivalent values of it are equal.
pub proof fn lemma_u8_order()
    ensures
        total_order::<u8>(),
        equivalent_means_equal::<u8>(),
{
    reveal(total_order_laws);
    assert forall|a: u8, b: u8, c: u8|
        #[trigger] le(a, b) && #[trigger] le(b, c) implies le(a, c) by {}
    assert forall|a: u8, b: u8| !#[trigger] lt(a, b) && !lt(b, a) implies a == b by {}
}

/// `u16` is totally ordered, and equivalent values of it are equal.
pub proof fn lemma_u16_order()
    ensures
        total_order::<u16>(),
        equivalent_means_equal::<u16>(),
{
    reveal(total_order_laws);
    assert forall|a: u16, b: u16, c: u16|
        #[trigger] le(a, b) && #[trigger] le(b, c) implies le(a, c) by {}
    assert forall|a: u16, b: u16| !#[trigger] lt(a, b) && !lt(b, a) implies a == b by {}
}

/// `u32` is totally ordered, and equivalent values of it are equal.
pub proof fn lemma_u32_order()
    ensures
        total_order::<u32>(),
        equivalent_means_equal::<u32>(),
{
    reveal(total_order_laws);
    assert forall|a: u32, b: u32, c: u32|
        #[trigger] le(a, b) && #[trigger] le(b, c) implies le(a, c) by {}
    assert forall|a: u32, b: u32| !#[trigger] lt(a, b) && !lt(b, a) implies a == b by {}
}

/// `u64` is totally ordered, and equivalent values of it are equal.
pub proof fn lemma_u64_order()
    ensures
        total_order::<u64>(),
        equivalent_means_equal::<u64>(),
{
    reveal(total_order_laws);
    assert forall|a: u64, b: u64, c: u64|
        #[trigger] le(a, b) && #[trigger] le(b, c) implies le(a, c) by {}
    assert forall|a: u64, b: u64| !#[trigger] lt(a, b) && !lt(b, a) implies a == b by {}
}

/// `u128` is totally ordered, and equivalent values of it are equal.
pub proof fn lemma_u128_order()
    ensures
        total_order::<u128>(),
        equivalent_means_equal::<u128>(),
{
    reveal(total_order_laws);
    assert forall|a: u128, b: u128, c: u128|
        #[trigger] le(a, b) && #[trigger] le(b, c) implies le(a, c) by {}
    assert forall|a: u128, b: u128| !#[trigger] lt(a, b) && !lt(b, a) implies a == b by {}
}

/// `usize` is totally ordered, and equivalent values of it are equal.
pub proof fn lemma_usize_order()
    ensures
        total_order::<usize>(),
        equivalent_means_equal::<usize>(),
{
    reveal(total_order_laws);
    assert forall|a: usize, b: usize, c: usize|
        #[trigger] le(a, b) && #[trigger] le(b, c) implies le(a, c) by {}
    assert forall|a: usize, b: usize| !#[trigger] lt(a, b) && !lt(b, a) implies a == b by {}
}

/// `i8` is totally ordered, and equivalent values of it are equal.
pub proof fn lemma_i8_order()
    ensures
        total_order::<i8>(),
        equivalent_means_equal::<i8>(),
{
    reveal(total_order_laws);
    assert forall|a: i8, b: i8, c: i8|
        #[trigger] le(a, b) && #[trigger] le(b, c) implies le(a, c) by {}
    assert forall|a: i8, b: i8| !#[trigger] lt(a, b) && !lt(b, a) implies a == b by {}
}

/// `i16` is totally ordered, and equivalent values of it are equal.
pub proof fn lemma_i16_order()
    ensures
        total_order::<i16>(),
        equivalent_means_equal::<i16>(),
{
    reveal(total_order_laws);
    assert forall|a: i16, b: i16, c: i16|
        #[trigger] le(a, b) && #[trigger] le(b, c) implies le(a, c) by {}
    assert forall|a: i16, b: i16| !#[trigger] lt(a, b) && !lt(b, a) implies a == b by {}
}

/// `i32` is totally ordered, and equivalent values of it are equal.
pub proof fn lemma_i32_order()
    ensures
        total_order::<i32>(),
        equivalent_means_equal::<i32>(),
{
    reveal(total_order_laws);
    assert forall|a: i32, b: i32, c: i32|
        #[trigger] le(a, b) && #[trigger] le(b, c) implies le(a, c) by {}
    assert forall|a: i32, b: i32| !#[trigger] lt(a, b) && !lt(b, a) implies a == b by {}
}

/// `i64` is totally ordered, and equivalent values of it are equal.
pub proof fn lemma_i64_order()
    ensures
        total_order::<i64>(),
        equivalent_means_equal::<i64>(),
{
    reveal(total_order_laws);
    assert forall|a: i64, b: i64, c: i64|
        #[trigger] le(a, b) && #[trigger] le(b, c) implies le(a, c) by {}
    assert forall|a: i64, b: i64| !#[trigger] lt(a, b) && !lt(b, a) implies a == b by {}
}

/// `i128` is totally ordered, and equivalent values of it are equal.
pub proof fn lemma_i128_order()
    ensures
        total_order::<i128>(),
        equivalent_means_equal::<i128>(),
{
    reveal(total_order_laws);
    assert forall|a: i128, b: i128, c: i128|
        #[trigger] le(a, b) && #[trigger] le(b, c) implies le(a, c) by {}
    assert forall|a: i128, b: i128| !#[trigger] lt(a, b) && !lt(b, a) implies a == b by {}
}

/// `isize` is totally ordered, and equivalent values of it are equal.
pub proof fn lemma_isize_order()
    ensures
        total_order::<isize>(),
        equivalent_means_equal::<isize>(),
{
    reveal(total_order_laws);
    assert forall|a: isize, b: isize, c: isize|
        #[trigger] le(a, b) && #[trigger] le(b, c) implies le(a, c) by {}
    assert forall|a: isize, b: isize| !#[trigger] lt(a, b) && !lt(b, a) implies a == b by {}
}

} // verus!
