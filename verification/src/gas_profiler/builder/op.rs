//! Opcode helpers for building function bodies.

use vstd::prelude::*;
use crate::gas_profiler::builder::{leb, leb_encode};

verus! {

/// `call idx`.
pub fn call(idx: u32) -> (r: Vec<u8>)
    ensures
        r@ == seq![0x10u8] + leb_encode(idx as nat),
{
    let mut v: Vec<u8> = vec![0x10];
    leb(idx as u64, &mut v);
    v
}

/// `i64.const n`, with `n` kept to the six low bits so that the immediate
/// is one byte of signed LEB128.
pub fn i64_const_small(n: u8) -> (r: Vec<u8>)
    ensures
        r@ == seq![0x42u8, n & 0x3f],
{
    vec![0x42, n & 0x3f]
}

/// `drop`.
pub fn drop() -> (r: Vec<u8>)
    ensures
        r@ == seq![0x1Au8],
{
    vec![0x1A]
}

/// `loop` with an empty block type.
pub fn loop_start() -> (r: Vec<u8>)
    ensures
        r@ == seq![0x03u8, 0x40u8],
{
    vec![0x03, 0x40]
}

/// `block` with an empty block type.
pub fn block_start() -> (r: Vec<u8>)
    ensures
        r@ == seq![0x02u8, 0x40u8],
{
    vec![0x02, 0x40]
}

/// `br_if depth`.
pub fn br_if(depth: u8) -> (r: Vec<u8>)
    ensures
        r@ == seq![0x0Du8, depth],
{
    vec![0x0D, depth]
}

/// `end`.
pub fn end() -> (r: Vec<u8>)
    ensures
        r@ == seq![0x0Bu8],
{
    vec![0x0B]
}

/// `i32.const 0`.
pub fn i32_const_zero() -> (r: Vec<u8>)
    ensures
        r@ == seq![0x41u8, 0x00u8],
{
    vec![0x41, 0x00]
}

/// `f64.const 0.0`: the opcode and eight zero bytes.
pub fn f64_const_zero() -> (r: Vec<u8>)
    ensures
        r@ == seq![0x44u8, 0u8, 0u8, 0u8, 0u8, 0u8, 0u8, 0u8, 0u8],
{
    vec![0x44, 0, 0, 0, 0, 0, 0, 0, 0]
}

} // verus!
