//! A small WebAssembly decoder tailored to gas profiling.
//!
//! The module is walked structurally: the type, import, function, export,
//! code, data and custom sections are decoded, then every function body is
//! walked opcode by opcode, decoding immediates so operand bytes are never
//! mistaken for opcodes. For each function the walk records instruction
//! counts, loop nesting, direct callees and every call to a Soroban host
//! import, noting whether the call sits lexically inside a loop. It also
//! records the constructs Soroban's VM rejects at upload time (floating
//! point, saturating float-to-int, tail calls, reference types, multi-value
//! blocks and SIMD).

use vstd::prelude::*;
use std::collections::BTreeMap;
use crate::gas_profiler::host_fns::{categorize, categorize_spec, host_function_name, host_name_spec, HostCategory};
use crate::text::{char_from_ascii_code, chars_of, decimal, decimal_string, push_str, string_of, string_views, to_owned_string};
use crate::security::analysis::hex_digit;

verus! {

broadcast use vstd::laws_cmp::group_laws_cmp;

/// Upper bound on declared functions and code bodies.
pub const MAX_FUNCTIONS: usize = 100_000;

/// A decoded import.
#[derive(Debug, Clone, PartialEq, Eq)]
pub struct Import {
    pub module: String,
    pub field: String,
    /// 0 = func, 1 = table, 2 = memory, 3 = global.
    pub kind: u8,
    /// Host function name for known Soroban imports.
    pub host_name: Option<String>,
    pub category: HostCategory,
}

/// A decoded export.
#[derive(Debug, Clone, PartialEq, Eq)]
pub struct Export {
    pub name: String,
    pub kind: u8,
    pub index: u32,
}

/// Static profile of one function body.
#[derive(Debug, Clone, PartialEq)]
pub struct FunctionBody {
    /// Absolute function index (imports first).
    pub index: u32,
    /// Name from the export or `name` section, if any.
    pub name: Option<String>,
    pub body_bytes: usize,
    pub instruction_count: u64,
    pub loop_count: u32,
    pub max_loop_depth: u32,
    pub max_block_depth: u32,
    pub branch_count: u32,
    pub memory_loads: u32,
    pub memory_stores: u32,
    pub memory_grow: u32,
    pub bulk_memory_ops: u32,
    pub call_indirect_count: u32,
    /// Direct calls to other defined functions: callee index -> call sites.
    pub direct_calls: BTreeMap<u32, u32>,
    /// Host import calls: import index -> call sites.
    pub host_calls: BTreeMap<u32, u32>,
    /// Host import calls lexically inside a loop: import index -> call sites.
    pub host_calls_in_loops: BTreeMap<u32, u32>,
    /// Calls to other defined functions made from inside a loop.
    pub direct_calls_in_loops: BTreeMap<u32, u32>,
    pub float_ops: u32,
    /// Rejected constructs, sorted and without repeats.
    pub rejected_features: Vec<String>,
    /// Set when the body could not be fully decoded (e.g. SIMD).
    pub decode_error: Option<String>,
}

/// A fully decoded module.
#[derive(Debug, Clone, PartialEq)]
pub struct WasmModule {
    pub size_bytes: usize,
    /// `(params, results)` per type index.
    pub types: Vec<(u32, u32)>,
    pub imports: Vec<Import>,
    /// Type index for each defined function.
    pub function_types: Vec<u32>,
    pub exports: Vec<Export>,
    pub functions: Vec<FunctionBody>,
    pub global_count: u32,
    pub table_count: u32,
    pub memory_count: u32,
    pub initial_memory_pages: u64,
    pub data_segment_count: u32,
    pub data_bytes: usize,
    pub element_segment_count: u32,
    pub has_start: bool,
    /// Custom sections: name -> total bytes, in order of first appearance.
    pub custom_sections: Vec<(String, usize)>,
}

/// Why decoding stopped.
#[derive(Debug, Clone, PartialEq, Eq)]
pub enum DecodeError {
    NotWasm,
    UnexpectedEnd { offset: usize },
    Truncated { offset: usize },
    LebTooLong { offset: usize },
    LebOutOfRange { offset: usize },
    SignedLebTooLong { offset: usize },
    UnsupportedTypeForm(u8),
    UnknownImportKind(u8),
    TooManyFunctions(usize),
    TooManyBodies(usize),
    UnknownFcSubOpcode(u32),
    Simd,
    UnknownOpcode(u8),
}

/// The two lower-case hexadecimal digits of a byte.
pub open spec fn hex_pair(b: u8) -> Seq<char> {
    seq![hex_digit(b / 16), hex_digit(b % 16)]
}

fn hex_char(d: u8) -> (c: char)
    requires
        d < 16,
    ensures
        c == hex_digit(d),
{
    if d < 10 {
        char_from_ascii_code((d + 48) as u32)
    } else {
        char_from_ascii_code((d + 87) as u32)
    }
}

/// Two lower-case hex digits of a byte.
fn hex_byte(b: u8) -> (r: String)
    ensures
        r@ == hex_pair(b),
{
    let v = vec![hex_char(b / 16), hex_char(b % 16)];
    proof {
        assert(v@ =~= hex_pair(b));
    }
    string_of(&v)
}

/// The description of a decoding error.
pub open spec fn decode_error_text(e: DecodeError) -> Seq<char> {
    match e {
        DecodeError::NotWasm => "not a WebAssembly module (magic bytes mismatch)"@,
        DecodeError::UnexpectedEnd { offset } => "unexpected end of wasm data at offset "@
            + decimal(offset as nat),
        DecodeError::Truncated { offset } => "truncated wasm data at offset "@ + decimal(
            offset as nat,
        ),
        DecodeError::LebTooLong { offset } => "LEB128 u32 too long at offset "@ + decimal(
            offset as nat,
        ),
        DecodeError::LebOutOfRange { offset } => "LEB128 value out of u32 range at offset "@
            + decimal(offset as nat),
        DecodeError::SignedLebTooLong { offset } => "signed LEB128 too long at offset "@
            + decimal(offset as nat),
        DecodeError::UnsupportedTypeForm(form) => "unsupported type form 0x"@ + hex_pair(form),
        DecodeError::UnknownImportKind(kind) => "unknown import kind "@ + decimal(kind as nat),
        DecodeError::TooManyFunctions(n) => "module declares "@ + decimal(n as nat)
            + " functions (limit 100000)"@,
        DecodeError::TooManyBodies(n) => "code section has "@ + decimal(n as nat)
            + " bodies (limit 100000)"@,
        DecodeError::UnknownFcSubOpcode(sub) => "unknown 0xFC sub-opcode "@ + decimal(sub as nat),
        DecodeError::Simd => "SIMD instructions are not supported by Soroban (decoding stopped)"@,
        DecodeError::UnknownOpcode(op) => "unknown opcode 0x"@ + hex_pair(op),
    }
}

impl DecodeError {
    /// Human-readable description.
    pub fn message(&self) -> (r: String)
        ensures
            r@ == decode_error_text(*self),
    {
        match self {
            DecodeError::NotWasm => {
                to_owned_string("not a WebAssembly module (magic bytes mismatch)")
            },
            DecodeError::UnexpectedEnd { offset } => {
                let mut s = to_owned_string("unexpected end of wasm data at offset ");
                push_str(&mut s, decimal_string(*offset as u64).as_str());
                s
            },
            DecodeError::Truncated { offset } => {
                let mut s = to_owned_string("truncated wasm data at offset ");
                push_str(&mut s, decimal_string(*offset as u64).as_str());
                s
            },
            DecodeError::LebTooLong { offset } => {
                let mut s = to_owned_string("LEB128 u32 too long at offset ");
                push_str(&mut s, decimal_string(*offset as u64).as_str());
                s
            },
            DecodeError::LebOutOfRange { offset } => {
                let mut s = to_owned_string("LEB128 value out of u32 range at offset ");
                push_str(&mut s, decimal_string(*offset as u64).as_str());
                s
            },
            DecodeError::SignedLebTooLong { offset } => {
                let mut s = to_owned_string("signed LEB128 too long at offset ");
                push_str(&mut s, decimal_string(*offset as u64).as_str());
                s
            },
            DecodeError::UnsupportedTypeForm(form) => {
                let mut s = to_owned_string("unsupported type form 0x");
                push_str(&mut s, hex_byte(*form).as_str());
                s
            },
            DecodeError::UnknownImportKind(kind) => {
                let mut s = to_owned_string("unknown import kind ");
                push_str(&mut s, decimal_string(*kind as u64).as_str());
                s
            },
            DecodeError::TooManyFunctions(n) => {
                let mut s = to_owned_string("module declares ");
                push_str(&mut s, decimal_string(*n as u64).as_str());
                push_str(&mut s, " functions (limit 100000)");
                s
            },
            DecodeError::TooManyBodies(n) => {
                let mut s = to_owned_string("code section has ");
                push_str(&mut s, decimal_string(*n as u64).as_str());
                push_str(&mut s, " bodies (limit 100000)");
                s
            },
            DecodeError::UnknownFcSubOpcode(sub) => {
                let mut s = to_owned_string("unknown 0xFC sub-opcode ");
                push_str(&mut s, decimal_string(*sub as u64).as_str());
                s
            },
            DecodeError::Simd => {
                to_owned_string("SIMD instructions are not supported by Soroban (decoding stopped)")
            },
            DecodeError::UnknownOpcode(op) => {
                let mut s = to_owned_string("unknown opcode 0x");
                push_str(&mut s, hex_byte(*op).as_str());
                s
            },
        }
    }
}

// ── Byte-level grammar ──────────────────────────────────────────────────────

/// Unsigned LEB128 starting at byte `i` of the encoding at `pos`: the value of
/// bytes `i..` and how many bytes they take. At most six bytes are read.
pub open spec fn leb_from(b: Seq<u8>, pos: int, i: nat) -> Option<(nat, nat)>
    decreases 6 - i,
{
    if i >= 6 || pos + i >= b.len() || pos + i < 0 {
        None
    } else if b[pos + i] < 128 {
        Some((b[pos + i] as nat, 1))
    } else {
        match leb_from(b, pos, i + 1) {
            Some((v, c)) => Some(((b[pos + i] - 128) as nat + 128 * v, c + 1)),
            None => None,
        }
    }
}

/// A `u32` in unsigned LEB128 at `pos`: its value and the position after it.
pub open spec fn leb_u32(b: Seq<u8>, pos: int) -> Option<(nat, int)> {
    match leb_from(b, pos, 0) {
        Some((v, c)) => if v <= u32::MAX {
            Some((v, pos + c))
        } else {
            None
        },
        None => None,
    }
}

/// Position after a signed LEB128 of at most `max` bytes starting at byte `i`.
pub open spec fn sleb_end(b: Seq<u8>, pos: int, i: nat, max: nat) -> Option<int>
    decreases max - i,
{
    if i >= max || pos + i >= b.len() || pos + i < 0 {
        None
    } else if b[pos + i] < 128 {
        Some(pos + i + 1)
    } else {
        sleb_end(b, pos, i + 1, max)
    }
}

/// Position after `n` LEB128 `u32`s.
pub open spec fn lebs_end(b: Seq<u8>, pos: int, n: nat) -> Option<int>
    decreases n,
{
    if n == 0 {
        Some(pos)
    } else {
        match leb_u32(b, pos) {
            Some((_, p)) => lebs_end(b, p, (n - 1) as nat),
            None => None,
        }
    }
}

/// Position after `n` raw bytes.
pub open spec fn bytes_end(b: Seq<u8>, pos: int, n: int) -> Option<int> {
    if 0 <= pos && pos + n <= b.len() && n >= 0 {
        Some(pos + n)
    } else {
        None
    }
}

/// Position after the immediates of the `0xFC`-prefixed instruction whose
/// sub-opcode `sub` ends at `p`.
pub open spec fn fc_end(b: Seq<u8>, sub: nat, p: int) -> Option<int> {
    if sub <= 7 {
        Some(p)
    } else if sub == 8 {
        match leb_u32(b, p) {
            Some((_, q)) => bytes_end(b, q, 1),
            None => None,
        }
    } else if sub == 9 || sub == 13 || (15 <= sub && sub <= 17) {
        lebs_end(b, p, 1)
    } else if sub == 10 {
        bytes_end(b, p, 2)
    } else if sub == 11 {
        bytes_end(b, p, 1)
    } else if sub == 12 || sub == 14 {
        lebs_end(b, p, 2)
    } else {
        None
    }
}

/// Position after the instruction (opcode and immediates) at `pos`, or
/// `None` when it cannot be decoded.
pub open spec fn instr_end(b: Seq<u8>, pos: int) -> Option<int> {
    if pos < 0 || pos >= b.len() {
        None
    } else {
        let op = b[pos];
        let q = pos + 1;
        if 0x02 <= op && op <= 0x04 {
            if q >= b.len() {
                None
            } else if b[q] >= 128 {
                sleb_end(b, q + 1, 0, 4)
            } else {
                Some(q + 1)
            }
        } else if op == 0x0B {
            Some(q)
        } else if op == 0x0C || op == 0x0D {
            lebs_end(b, q, 1)
        } else if op == 0x0E {
            match leb_u32(b, q) {
                Some((n, p)) => lebs_end(b, p, n + 1),
                None => None,
            }
        } else if op == 0x10 || op == 0x12 {
            lebs_end(b, q, 1)
        } else if op == 0x11 || op == 0x13 {
            lebs_end(b, q, 2)
        } else if op == 0x1C {
            match leb_u32(b, q) {
                Some((n, p)) => bytes_end(b, p, n as int),
                None => None,
            }
        } else if 0x20 <= op && op <= 0x26 {
            lebs_end(b, q, 1)
        } else if 0x28 <= op && op <= 0x3E {
            lebs_end(b, q, 2)
        } else if op == 0x3F || op == 0x40 {
            lebs_end(b, q, 1)
        } else if op == 0x41 {
            sleb_end(b, q, 0, 5)
        } else if op == 0x42 {
            sleb_end(b, q, 0, 10)
        } else if op == 0x43 {
            bytes_end(b, q, 4)
        } else if op == 0x44 {
            bytes_end(b, q, 8)
        } else if op == 0xD0 {
            bytes_end(b, q, 1)
        } else if op == 0xD1 {
            Some(q)
        } else if op == 0xD2 {
            lebs_end(b, q, 1)
        } else if op == 0xFC {
            match leb_u32(b, q) {
                Some((sub, p)) => fc_end(b, sub, p),
                None => None,
            }
        } else if op == 0x00 || op == 0x01 || op == 0x05 || op == 0x0F || op == 0x1A || op == 0x1B
            || (0x45 <= op && op <= 0xC4) {
            Some(q)
        } else {
            None
        }
    }
}

/// Number of instructions from `pos` to the end of the body, when every one
/// of them decodes.
pub open spec fn instr_count_from(b: Seq<u8>, pos: int) -> Option<nat>
    decreases b.len() - pos,
{
    if pos >= b.len() || pos < 0 {
        Some(0)
    } else {
        match instr_end(b, pos) {
            Some(e) => if e > pos && e <= b.len() {
                match instr_count_from(b, e) {
                    Some(n) => Some(n + 1),
                    None => None,
                }
            } else {
                None
            },
            None => None,
        }
    }
}

/// Position after `n` local declarations (a count and a value type each).
pub open spec fn locals_end(b: Seq<u8>, pos: int, n: nat) -> Option<int>
    decreases n,
{
    if n == 0 {
        Some(pos)
    } else {
        match leb_u32(b, pos) {
            Some((_, p)) => match bytes_end(b, p, 1) {
                Some(q) => locals_end(b, q, (n - 1) as nat),
                None => None,
            },
            None => None,
        }
    }
}

/// Number of instructions in a function body (after its local
/// declarations), when the whole body decodes.
pub open spec fn body_instructions(b: Seq<u8>) -> Option<nat> {
    match leb_u32(b, 0) {
        Some((groups, p)) => match locals_end(b, p, groups) {
            Some(q) => instr_count_from(b, q),
            None => None,
        },
        None => None,
    }
}

// ── Readers ──────────────────────────────────────────────────────────────────

/// One byte at `pos`.
fn read_byte(b: &[u8], pos: usize) -> (r: Result<u8, DecodeError>)
    ensures
        r matches Err(e) ==> !(e is NotWasm),
        match r {
            Ok(v) => pos < b@.len() && v == b@[pos as int],
            Err(_) => pos >= b@.len(),
        },
{
    if pos < b.len() {
        Ok(b[pos])
    } else {
        Err(DecodeError::UnexpectedEnd { offset: pos })
    }
}

/// Recursive LEB128 decoding of bytes `i..` of the encoding at `pos`.
fn read_leb_from(b: &[u8], pos: usize, i: usize) -> (r: Result<(u64, usize), DecodeError>)
    requires
        i <= 6,
        pos + i <= b@.len(),
    ensures
        match r {
            Ok((v, c)) => leb_from(b@, pos as int, i as nat) == Some((v as nat, c as nat)) && v
                < pow128((6 - i) as nat) && 1 <= c <= 6 - i,
            Err(_) => leb_from(b@, pos as int, i as nat) is None,
        },
        r matches Err(e) ==> !(e is NotWasm),
    decreases 6 - i,
{
    let len = b.len();
    if i >= 6 {
        return Err(DecodeError::LebTooLong { offset: pos + i });
    }
    if i >= len - pos {
        return Err(DecodeError::UnexpectedEnd { offset: b.len() });
    }
    let x = b[pos + i];
    if x < 128 {
        proof {
            lemma_pow128_pos((6 - i - 1) as nat);
        }
        Ok((x as u64, 1))
    } else {
        let (v, c) = read_leb_from(b, pos, i + 1)?;
        proof {
            lemma_pow128_pos((6 - i - 1) as nat);
            lemma_pow128_unfold((6 - i) as nat);
            assert((x - 128) + 128 * v < pow128((6 - i) as nat)) by (nonlinear_arith)
                requires
                    v < pow128((6 - i - 1) as nat),
                    x < 256,
                    x >= 128,
                    pow128((6 - i) as nat) == 128 * pow128((6 - i - 1) as nat),
            ;
        }
        Ok(((x - 128) as u64 + 128 * v, c + 1))
    }
}

/// `128^n`.
pub open spec fn pow128(n: nat) -> nat
    decreases n,
{
    if n == 0 {
        1
    } else {
        128 * pow128((n - 1) as nat)
    }
}

proof fn lemma_pow128_unfold(n: nat)
    requires
        n >= 1,
    ensures
        pow128(n) == 128 * pow128((n - 1) as nat),
{
}

proof fn lemma_pow128_pos(n: nat)
    ensures
        pow128(n) >= 1,
        n <= 6 ==> pow128(n) <= 0x400_0000_0000,
    decreases 6 - n,
{
    lemma_pow128_ge1(n);
    if n < 6 {
        lemma_pow128_pos(n + 1);
        assert(pow128(n + 1) == 128 * pow128(n));
    } else if n == 6 {
        assert(pow128(0) == 1);
        assert(pow128(1) == 128);
        assert(pow128(2) == 16384);
        assert(pow128(3) == 2097152);
        assert(pow128(4) == 268435456);
        assert(pow128(5) == 34359738368);
        assert(pow128(6) == 0x400_0000_0000);
    }
}

proof fn lemma_pow128_ge1(n: nat)
    ensures
        pow128(n) >= 1,
    decreases n,
{
    if n > 0 {
        lemma_pow128_ge1((n - 1) as nat);
    }
}

/// An unsigned LEB128 `u32` at `pos`; returns the value and the position
/// after it.
fn read_u32(b: &[u8], pos: usize) -> (r: Result<(u32, usize), DecodeError>)
    requires
        pos <= b@.len(),
    ensures
        match r {
            Ok((v, p)) => leb_u32(b@, pos as int) == Some((v as nat, p as int)) && pos < p <= b@.len(),
            Err(_) => leb_u32(b@, pos as int) is None,
        },
        r matches Err(e) ==> !(e is NotWasm),
{
    proof {
        lemma_pow128_pos(6);
    }
    let _len = b.len();
    let (v, c) = read_leb_from(b, pos, 0)?;
    proof {
        lemma_leb_from_in_bounds(b@, pos as int, 0);
    }
    if v > 0xffff_ffff {
        return Err(DecodeError::LebOutOfRange { offset: pos + c });
    }
    Ok((v as u32, pos + c))
}

/// A decoded LEB128 stays inside the data.
proof fn lemma_leb_from_in_bounds(b: Seq<u8>, pos: int, i: nat)
    requires
        leb_from(b, pos, i) is Some,
    ensures
        pos + i + leb_from(b, pos, i)->Some_0.1 <= b.len(),
        leb_from(b, pos, i)->Some_0.1 >= 1,
    decreases 6 - i,
{
    if b[pos + i] >= 128 {
        lemma_leb_from_in_bounds(b, pos, i + 1);
    }
}

/// Skips a signed LEB128 of at most `max` bytes.
fn skip_sleb(b: &[u8], pos: usize, max: usize) -> (r: Result<usize, DecodeError>)
    requires
        pos <= b@.len(),
    ensures
        r matches Err(e) ==> !(e is NotWasm),
        match r {
            Ok(p) => sleb_end(b@, pos as int, 0, max as nat) == Some(p as int) && pos < p <= b@.len(),
            Err(_) => sleb_end(b@, pos as int, 0, max as nat) is None,
        },
{
    let _len = b.len();
    let mut i: usize = 0;
    while i < max
        invariant
            pos <= b@.len(),
            b@.len() <= usize::MAX,
            i <= b@.len() - pos,
            i <= max,
            sleb_end(b@, pos as int, i as nat, max as nat) == sleb_end(b@, pos as int, 0, max as nat),
        decreases max - i,
    {
        if i >= b.len() - pos {
            return Err(DecodeError::UnexpectedEnd { offset: b.len() });
        }
        if b[pos + i] < 128 {
            return Ok(pos + i + 1);
        }
        i += 1;
    }
    Err(DecodeError::SignedLebTooLong { offset: pos + i })
}

/// Skips `n` bytes.
fn skip(b: &[u8], pos: usize, n: usize) -> (r: Result<usize, DecodeError>)
    requires
        pos <= b@.len(),
    ensures
        r matches Err(e) ==> !(e is NotWasm),
        match r {
            Ok(p) => bytes_end(b@, pos as int, n as int) == Some(p as int),
            Err(_) => bytes_end(b@, pos as int, n as int) is None,
        },
{
    if n > b.len() - pos {
        Err(DecodeError::Truncated { offset: pos })
    } else {
        Ok(pos + n)
    }
}

/// Skips `n` LEB128 `u32`s.
fn skip_lebs(b: &[u8], pos: usize, n: u64) -> (r: Result<usize, DecodeError>)
    requires
        pos <= b@.len(),
    ensures
        r matches Err(e) ==> !(e is NotWasm),
        match r {
            Ok(p) => lebs_end(b@, pos as int, n as nat) == Some(p as int) && pos <= p <= b@.len(),
            Err(_) => lebs_end(b@, pos as int, n as nat) is None,
        },
{
    let mut k: u64 = 0;
    let mut p = pos;
    while k < n
        invariant
            pos <= p <= b@.len(),
            k <= n,
            lebs_end(b@, p as int, (n - k) as nat) == lebs_end(b@, pos as int, n as nat),
        decreases n - k,
    {
        let (_, q) = read_u32(b, p)?;
        p = q;
        k += 1;
    }
    Ok(p)
}

/// Copies `n` bytes starting at `pos`.
fn copy_bytes(b: &[u8], pos: usize, n: usize) -> (r: Vec<u8>)
    requires
        pos + n <= b@.len(),
    ensures
        r@ == b@.subrange(pos as int, pos + n),
{
    let _len = b.len();
    let mut r: Vec<u8> = Vec::new();
    let mut i: usize = 0;
    while i < n
        invariant
            b@.len() <= usize::MAX,
            pos + n <= b@.len(),
            i <= n,
            r@ == b@.subrange(pos as int, pos + i),
        decreases n - i,
    {
        r.push(b[pos + i]);
        i += 1;
        assert(r@ =~= b@.subrange(pos as int, pos + i));
    }
    r
}

/// Text of UTF-8 bytes with invalid sequences replaced by U+FFFD, as
/// `String::from_utf8_lossy` produces; a function of the bytes alone.
pub uninterp spec fn utf8_lossy(bytes: Seq<u8>) -> Seq<char>;

/// `String::from_utf8_lossy`.
#[verifier::external_body]
pub(crate) fn lossy_string(bytes: &[u8]) -> (s: String)
    ensures
        s@ == utf8_lossy(bytes@),
{
    String::from_utf8_lossy(bytes).into_owned()
}

/// A length-prefixed name at `pos`: its text, decoded lossily, and the
/// position after it; `None` when the length or the bytes run past the end.
pub open spec fn name_at(b: Seq<u8>, pos: int) -> Option<(Seq<char>, int)> {
    match leb_u32(b, pos) {
        Some((n, q)) => if q + n <= b.len() {
            Some((utf8_lossy(b.subrange(q, q + n)), q + n))
        } else {
            None
        },
        None => None,
    }
}

/// A length-prefixed name at `pos`, decoded lossily.
fn read_name(b: &[u8], pos: usize) -> (r: Result<(String, usize), DecodeError>)
    requires
        pos <= b@.len(),
    ensures
        r matches Err(e) ==> !(e is NotWasm),
        match name_at(b@, pos as int) {
            Some((t, p)) => r matches Ok((s, q)) && s@ == t && q == p && pos < q <= b@.len(),
            None => r is Err,
        },
{
    let (n, q) = read_u32(b, pos)?;
    let n = n as usize;
    let p = skip(b, q, n)?;
    let bytes = copy_bytes(b, q, n);
    Ok((lossy_string(&bytes), p))
}

/// Limits at `pos` (a flags byte, `min`, and `max` when bit 0 of the flags is
/// set): `min` and the position after them.
pub open spec fn limits_at(b: Seq<u8>, pos: int) -> Option<(nat, int)> {
    if pos < 0 || pos >= b.len() {
        None
    } else {
        match leb_u32(b, pos + 1) {
            Some((min, p)) => if b[pos] % 2 != 0 {
                match leb_u32(b, p) {
                    Some((_, q)) => Some((min, q)),
                    None => None,
                }
            } else {
                Some((min, p))
            },
            None => None,
        }
    }
}

/// Limits (`flags`, `min`, optional `max`); returns `min`.
fn read_limits(b: &[u8], pos: usize) -> (r: Result<(u64, usize), DecodeError>)
    requires
        pos <= b@.len(),
    ensures
        r matches Err(e) ==> !(e is NotWasm),
        match limits_at(b@, pos as int) {
            Some((v, p)) => r matches Ok((x, q)) && x == v && q == p && pos < q <= b@.len() && x
                <= u32::MAX,
            None => r is Err,
        },
{
    let _len = b.len();
    let flags = read_byte(b, pos)?;
    let (min, p) = read_u32(b, pos + 1)?;
    let p = if flags % 2 != 0 {
        let (_, q) = read_u32(b, p)?;
        q
    } else {
        p
    };
    Ok((min as u64, p))
}

/// True when `bytes` start with the wasm magic number.
pub open spec fn is_wasm_spec(b: Seq<u8>) -> bool {
    b.len() >= 8 && b[0] == 0 && b[1] == 0x61 && b[2] == 0x73 && b[3] == 0x6d
}

/// True when `bytes` start with the wasm magic number (`\0asm`) and hold at
/// least the 8-byte header.
pub fn is_wasm(bytes: &[u8]) -> (r: bool)
    ensures
        r == is_wasm_spec(bytes@),
{
    bytes.len() >= 8 && bytes[0] == 0 && bytes[1] == 0x61 && bytes[2] == 0x73 && bytes[3] == 0x6d
}

/// Custom sections the Soroban toolchain relies on and that must be kept.
pub open spec fn is_metadata_name(name: Seq<char>) -> bool {
    name == "contractspecv0"@ || name == "contractenvmetav0"@ || name == "contractmetav0"@
}

/// Custom sections the Soroban toolchain relies on and that must be kept.
pub fn is_soroban_metadata_section(name: &str) -> (r: bool)
    ensures
        r == is_metadata_name(name@),
{
    let n = chars_of(name);
    crate::text::eq_str(&n, "contractspecv0") || crate::text::eq_str(&n, "contractenvmetav0")
        || crate::text::eq_str(&n, "contractmetav0")
}

// ── Function bodies ──────────────────────────────────────────────────────────

/// Opcodes of floating-point instructions.
pub open spec fn is_float_op(op: u8) -> bool {
    op == 0x2A || op == 0x2B || op == 0x38 || op == 0x39 || op == 0x43 || op == 0x44 || (0x5B
        <= op && op <= 0x66) || (0x8B <= op && op <= 0xA6) || (0xA8 <= op && op <= 0xAB) || (0xAE
        <= op && op <= 0xBF)
}

fn is_float_opcode(op: u8) -> (r: bool)
    ensures
        r == is_float_op(op),
{
    op == 0x2A || op == 0x2B || op == 0x38 || op == 0x39 || op == 0x43 || op == 0x44 || (0x5B
        <= op && op <= 0x66) || (0x8B <= op && op <= 0xA6) || (0xA8 <= op && op <= 0xAB) || (0xAE
        <= op && op <= 0xBF)
}

/// Constructs that Soroban rejects, as seen so far in one body.
struct Rejected {
    floating_point: bool,
    multi_value: bool,
    reference_types: bool,
    saturating: bool,
    simd: bool,
    tail_call: bool,
}

/// `a + 1`, saturating.
pub open spec fn inc_sat(a: u32) -> u32 {
    if a < u32::MAX {
        (a + 1) as u32
    } else {
        a
    }
}

fn inc(a: u32) -> (r: u32)
    ensures
        r == inc_sat(a),
{
    if a < u32::MAX {
        a + 1
    } else {
        a
    }
}

/// Call-site count of `k` in `m` (0 when absent).
pub open spec fn count_of(m: Map<u32, u32>, k: u32) -> u32 {
    if m.contains_key(k) {
        m[k]
    } else {
        0
    }
}

/// One more call site for `k`.
fn bump(m: &mut BTreeMap<u32, u32>, k: u32)
    ensures
        final(m)@ == old(m)@.insert(k, inc_sat(count_of(old(m)@, k))),
{
    let cur: u32 = match m.get(&k) {
        Some(v) => *v,
        None => 0,
    };
    m.insert(k, inc(cur));
}

/// Invariants that the body walker keeps over its counters.
pub open spec fn calls_consistent(f: FunctionBody, imported: u32) -> bool {
    &&& forall|k: u32| #[trigger] f.host_calls@.contains_key(k) ==> k < imported
    &&& forall|k: u32| #[trigger] f.direct_calls@.contains_key(k) ==> k >= imported
    &&& forall|k: u32| #[trigger]
        f.host_calls_in_loops@.contains_key(k) ==> f.host_calls@.contains_key(k)
            && f.host_calls_in_loops@[k] <= f.host_calls@[k]
    &&& forall|k: u32| #[trigger]
        f.direct_calls_in_loops@.contains_key(k) ==> f.direct_calls@.contains_key(k)
            && f.direct_calls_in_loops@[k] <= f.direct_calls@[k]
    &&& f.max_loop_depth <= f.loop_count
    &&& f.max_loop_depth <= f.max_block_depth
}

fn empty_body(index: u32, len: usize) -> (f: FunctionBody)
    ensures
        f.index == index,
        f.body_bytes == len,
        f.name is None,
        f.instruction_count == 0,
        f.decode_error is None,
        calls_consistent(f, 0),
        f.direct_calls@ == Map::<u32, u32>::empty(),
        f.host_calls@ == Map::<u32, u32>::empty(),
        f.host_calls_in_loops@ == Map::<u32, u32>::empty(),
        f.direct_calls_in_loops@ == Map::<u32, u32>::empty(),
        f.loop_count == 0,
        f.max_loop_depth == 0,
        f.max_block_depth == 0,
        f.branch_count == 0,
        f.call_indirect_count == 0,
        f.memory_loads == 0,
        f.memory_stores == 0,
        f.memory_grow == 0,
        f.bulk_memory_ops == 0,
        f.float_ops == 0,
{
    FunctionBody {
        index,
        name: None,
        body_bytes: len,
        instruction_count: 0,
        loop_count: 0,
        max_loop_depth: 0,
        max_block_depth: 0,
        branch_count: 0,
        memory_loads: 0,
        memory_stores: 0,
        memory_grow: 0,
        bulk_memory_ops: 0,
        call_indirect_count: 0,
        direct_calls: BTreeMap::new(),
        host_calls: BTreeMap::new(),
        host_calls_in_loops: BTreeMap::new(),
        direct_calls_in_loops: BTreeMap::new(),
        float_ops: 0,
        rejected_features: Vec::new(),
        decode_error: None,
    }
}

/// Number of loop frames among the open blocks.
pub open spec fn open_loops(frames: Seq<bool>) -> nat
    decreases frames.len(),
{
    if frames.len() == 0 {
        0
    } else {
        open_loops(frames.drop_last()) + if frames.last() {
            1nat
        } else {
            0nat
        }
    }
}

proof fn lemma_open_loops_bounded(frames: Seq<bool>)
    ensures
        open_loops(frames) <= frames.len(),
    decreases frames.len(),
{
    if frames.len() > 0 {
        lemma_open_loops_bounded(frames.drop_last());
    }
}

/// The loop and call statistics of a body as plain values, with the open
/// blocks (`true` for a loop).
pub struct CallStats {
    pub host_calls: Map<u32, u32>,
    pub host_calls_in_loops: Map<u32, u32>,
    pub direct_calls: Map<u32, u32>,
    pub direct_calls_in_loops: Map<u32, u32>,
    pub loop_count: u32,
    pub max_loop_depth: u32,
    pub max_block_depth: u32,
    pub branch_count: u32,
    pub call_indirect_count: u32,
    pub memory_loads: u32,
    pub memory_stores: u32,
    pub memory_grow: u32,
    pub bulk_memory_ops: u32,
    pub frames: Seq<bool>,
}

/// The statistics of `f` with the open blocks `frames`.
pub open spec fn stats_of(f: FunctionBody, frames: Seq<bool>) -> CallStats {
    CallStats {
        host_calls: f.host_calls@,
        host_calls_in_loops: f.host_calls_in_loops@,
        direct_calls: f.direct_calls@,
        direct_calls_in_loops: f.direct_calls_in_loops@,
        loop_count: f.loop_count,
        max_loop_depth: f.max_loop_depth,
        max_block_depth: f.max_block_depth,
        branch_count: f.branch_count,
        call_indirect_count: f.call_indirect_count,
        memory_loads: f.memory_loads,
        memory_stores: f.memory_stores,
        memory_grow: f.memory_grow,
        bulk_memory_ops: f.bulk_memory_ops,
        frames,
    }
}

/// No instruction seen yet.
pub open spec fn empty_stats() -> CallStats {
    CallStats {
        host_calls: Map::empty(),
        host_calls_in_loops: Map::empty(),
        direct_calls: Map::empty(),
        direct_calls_in_loops: Map::empty(),
        loop_count: 0,
        max_loop_depth: 0,
        max_block_depth: 0,
        branch_count: 0,
        call_indirect_count: 0,
        memory_loads: 0,
        memory_stores: 0,
        memory_grow: 0,
        bulk_memory_ops: 0,
        frames: Seq::empty(),
    }
}

/// One more call site for `k`, saturating.
pub open spec fn bumped(m: Map<u32, u32>, k: u32) -> Map<u32, u32> {
    m.insert(k, inc_sat(count_of(m, k)))
}

/// The statistics after the (decodable) instruction at `pos`: `block`,
/// `loop` and `if` open a frame (a loop also counts, and both depths keep
/// their maximum), `end` closes one, and `call`/`return_call` count one call
/// site of the callee, as a host call below `imported` and a direct call
/// otherwise, and again inside loops when a loop is open. Branches (`br`,
/// `br_if`, `br_table`), indirect calls, loads, stores, `memory.grow` and the
/// bulk memory operations (`0xFC` 8 to 11) each count one, saturating.
pub open spec fn stats_step(s: CallStats, b: Seq<u8>, pos: int, imported: u32) -> CallStats {
    let op = b[pos];
    if 0x02 <= op && op <= 0x04 {
        let frames = s.frames.push(op == 0x03);
        let loops = open_loops(frames);
        CallStats {
            frames,
            loop_count: if op == 0x03 {
                (s.loop_count + 1) as u32
            } else {
                s.loop_count
            },
            max_loop_depth: if op == 0x03 && loops > s.max_loop_depth {
                loops as u32
            } else {
                s.max_loop_depth
            },
            max_block_depth: if frames.len() > s.max_block_depth {
                frames.len() as u32
            } else {
                s.max_block_depth
            },
            ..s
        }
    } else if op == 0x0B {
        CallStats {
            frames: if s.frames.len() > 0 {
                s.frames.drop_last()
            } else {
                s.frames
            },
            ..s
        }
    } else if op == 0x10 || op == 0x12 {
        let callee = leb_u32(b, pos + 1)->Some_0.0 as u32;
        let in_loop = open_loops(s.frames) > 0;
        if callee < imported {
            CallStats {
                host_calls: bumped(s.host_calls, callee),
                host_calls_in_loops: if in_loop {
                    bumped(s.host_calls_in_loops, callee)
                } else {
                    s.host_calls_in_loops
                },
                ..s
            }
        } else {
            CallStats {
                direct_calls: bumped(s.direct_calls, callee),
                direct_calls_in_loops: if in_loop {
                    bumped(s.direct_calls_in_loops, callee)
                } else {
                    s.direct_calls_in_loops
                },
                ..s
            }
        }
    } else if op == 0x0C || op == 0x0D || op == 0x0E {
        CallStats { branch_count: inc_sat(s.branch_count), ..s }
    } else if op == 0x11 || op == 0x13 {
        CallStats { call_indirect_count: inc_sat(s.call_indirect_count), ..s }
    } else if 0x28 <= op && op <= 0x35 {
        CallStats { memory_loads: inc_sat(s.memory_loads), ..s }
    } else if 0x36 <= op && op <= 0x3E {
        CallStats { memory_stores: inc_sat(s.memory_stores), ..s }
    } else if op == 0x40 {
        CallStats { memory_grow: inc_sat(s.memory_grow), ..s }
    } else if op == 0xFC && 8 <= leb_u32(b, pos + 1)->Some_0.0 && leb_u32(b, pos + 1)->Some_0.0 <= 11 {
        CallStats { bulk_memory_ops: inc_sat(s.bulk_memory_ops), ..s }
    } else {
        s
    }
}

/// The statistics after the instructions from `pos` up to the end of the
/// body or the first that does not decode.
pub open spec fn stats_from(b: Seq<u8>, pos: int, s: CallStats, imported: u32) -> CallStats
    decreases b.len() - pos,
{
    if pos < 0 || pos >= b.len() {
        s
    } else {
        match instr_end(b, pos) {
            Some(e) => if e > pos && e <= b.len() {
                stats_from(b, e, stats_step(s, b, pos, imported), imported)
            } else {
                s
            },
            None => s,
        }
    }
}

/// Where the instructions of a body start, after its local declarations.
pub open spec fn code_start(b: Seq<u8>) -> Option<int> {
    match leb_u32(b, 0) {
        Some((groups, p)) => locals_end(b, p, groups),
        None => None,
    }
}

/// The loop and call statistics of a body: a fold of `stats_step` over its
/// instructions (none when its local declarations do not read).
pub open spec fn body_stats(b: Seq<u8>, imported: u32) -> CallStats {
    match code_start(b) {
        Some(q) => stats_from(b, q, empty_stats(), imported),
        None => empty_stats(),
    }
}

/// `f` has the statistics `s` (open blocks aside).
pub open spec fn has_stats(f: FunctionBody, s: CallStats) -> bool {
    &&& f.host_calls@ == s.host_calls
    &&& f.host_calls_in_loops@ == s.host_calls_in_loops
    &&& f.direct_calls@ == s.direct_calls
    &&& f.direct_calls_in_loops@ == s.direct_calls_in_loops
    &&& f.loop_count == s.loop_count
    &&& f.max_loop_depth == s.max_loop_depth
    &&& f.max_block_depth == s.max_block_depth
    &&& f.branch_count == s.branch_count
    &&& f.call_indirect_count == s.call_indirect_count
    &&& f.memory_loads == s.memory_loads
    &&& f.memory_stores == s.memory_stores
    &&& f.memory_grow == s.memory_grow
    &&& f.bulk_memory_ops == s.bulk_memory_ops
}

/// The float count after the local declarations from `pos` on (`n` groups
/// left): one more for each group of `f32` or `f64` locals, saturating.
pub open spec fn locals_floats(b: Seq<u8>, pos: int, n: nat, acc: u32) -> u32
    decreases n,
{
    if n == 0 {
        acc
    } else {
        match leb_u32(b, pos) {
            Some((_, p)) => match bytes_end(b, p, 1) {
                Some(q) => locals_floats(
                    b,
                    q,
                    (n - 1) as nat,
                    if b[p] == 0x7D || b[p] == 0x7C {
                        inc_sat(acc)
                    } else {
                        acc
                    },
                ),
                None => acc,
            },
            None => acc,
        }
    }
}

/// The float count after the instruction at `pos`: one more for a float
/// opcode or a saturating conversion (`0xFC` 0 to 7), saturating.
pub open spec fn float_step(acc: u32, b: Seq<u8>, pos: int) -> u32 {
    if is_float_op(b[pos]) || (b[pos] == 0xFC && leb_u32(b, pos + 1)->Some_0.0 <= 7) {
        inc_sat(acc)
    } else {
        acc
    }
}

/// The float count over the instructions from `pos` on.
pub open spec fn floats_from(b: Seq<u8>, pos: int, acc: u32) -> u32
    decreases b.len() - pos,
{
    if pos < 0 || pos >= b.len() {
        acc
    } else {
        match instr_end(b, pos) {
            Some(e) => if e > pos && e <= b.len() {
                floats_from(b, e, float_step(acc, b, pos))
            } else {
                acc
            },
            None => acc,
        }
    }
}

/// The float operations of a body that decodes: its `f32`/`f64` local
/// groups, float opcodes and saturating conversions.
pub open spec fn body_floats(b: Seq<u8>) -> u32 {
    match leb_u32(b, 0) {
        Some((groups, p)) => match locals_end(b, p, groups) {
            Some(q) => floats_from(b, q, locals_floats(b, p, groups, 0)),
            None => 0,
        },
        None => 0,
    }
}

/// The rejected-construct flags (floating point, multi-value, reference
/// types, saturating conversions, SIMD, tail calls) after the local
/// declarations from `pos` on: `f32` and `f64` locals are floating point.
pub open spec fn locals_flags(b: Seq<u8>, pos: int, n: nat, fl: (bool, bool, bool, bool, bool, bool)) -> (
    bool,
    bool,
    bool,
    bool,
    bool,
    bool,
)
    decreases n,
{
    if n == 0 {
        fl
    } else {
        match leb_u32(b, pos) {
            Some((_, p)) => match bytes_end(b, p, 1) {
                Some(q) => locals_flags(
                    b,
                    q,
                    (n - 1) as nat,
                    (fl.0 || b[p] == 0x7D || b[p] == 0x7C, fl.1, fl.2, fl.3, fl.4, fl.5),
                ),
                None => fl,
            },
            None => fl,
        }
    }
}

/// The flags after the instruction at `pos`: float opcodes and saturating
/// conversions are floating point; a block type that is not empty or a
/// single value is multi-value; `select t`, table access, `ref.*` and the
/// table operations of `0xFC` are reference types; `0xFC` 0 to 7 are
/// saturating conversions; `0xFD` is SIMD; `return_call*` are tail calls.
pub open spec fn flags_step(fl: (bool, bool, bool, bool, bool, bool), b: Seq<u8>, pos: int) -> (
    bool,
    bool,
    bool,
    bool,
    bool,
    bool,
) {
    let op = b[pos];
    let sub = leb_u32(b, pos + 1)->Some_0.0;
    (
        fl.0 || is_float_op(op) || (op == 0xFC && sub <= 7),
        fl.1 || (0x02 <= op && op <= 0x04 && (b[pos + 1] >= 128 || b[pos + 1] < 0x40)),
        fl.2 || op == 0x1C || op == 0x25 || op == 0x26 || op == 0xD0 || op == 0xD1 || op == 0xD2
            || (op == 0xFC && 15 <= sub && sub <= 17),
        fl.3 || (op == 0xFC && sub <= 7),
        fl.4 || op == 0xFD,
        fl.5 || op == 0x12 || op == 0x13,
    )
}

/// The flags over the instructions from `pos` on.
pub open spec fn flags_from(b: Seq<u8>, pos: int, fl: (bool, bool, bool, bool, bool, bool)) -> (
    bool,
    bool,
    bool,
    bool,
    bool,
    bool,
)
    decreases b.len() - pos,
{
    if pos < 0 || pos >= b.len() {
        fl
    } else {
        match instr_end(b, pos) {
            Some(e) => if e > pos && e <= b.len() {
                flags_from(b, e, flags_step(fl, b, pos))
            } else {
                fl
            },
            None => fl,
        }
    }
}

/// The rejected constructs a body that decodes uses.
pub open spec fn body_flags(b: Seq<u8>) -> (bool, bool, bool, bool, bool, bool) {
    let none = (false, false, false, false, false, false);
    match leb_u32(b, 0) {
        Some((groups, p)) => match locals_end(b, p, groups) {
            Some(q) => flags_from(b, q, locals_flags(b, p, groups, none)),
            None => none,
        },
        None => none,
    }
}

/// What the walker keeps true between instructions at position `pos`.
pub open spec fn walk_state_ok(
    f: FunctionBody,
    imported: u32,
    frames: Seq<bool>,
    loop_depth: u32,
    pos: int,
) -> bool {
    &&& calls_consistent(f, imported)
    &&& loop_depth == open_loops(frames)
    &&& loop_depth <= f.loop_count
    &&& loop_depth <= f.max_loop_depth
    &&& frames.len() <= f.max_block_depth
    &&& frames.len() <= pos
    &&& f.loop_count <= pos
}

/// Decodes the instruction at `pos`, updating the counters; returns the
/// position after it. `frames` holds the open blocks (`true` for a loop) and
/// `loop_depth` the number of open loops.
#[verifier::rlimit(60)]
fn step(
    b: &[u8],
    pos: usize,
    imported: u32,
    f: &mut FunctionBody,
    rej: &mut Rejected,
    frames: &mut Vec<bool>,
    loop_depth: &mut u32,
) -> (r: Result<usize, DecodeError>)
    requires
        pos < b@.len(),
        b@.len() <= u32::MAX,
        walk_state_ok(*old(f), imported, old(frames)@, *old(loop_depth), pos as int),
    ensures
        r matches Err(e) ==> !(e is NotWasm),
        final(f).instruction_count == old(f).instruction_count,
        final(f).index == old(f).index,
        final(f).body_bytes == old(f).body_bytes,
        final(f).name == old(f).name,
        final(f).decode_error == old(f).decode_error,
        match r {
            Ok(_) => stats_of(*final(f), final(frames)@) == stats_step(
                stats_of(*old(f), old(frames)@),
                b@,
                pos as int,
                imported,
            ),
            Err(_) => stats_of(*final(f), final(frames)@) == stats_of(*old(f), old(frames)@),
        },
        r is Ok ==> final(f).float_ops == float_step(old(f).float_ops, b@, pos as int),
        r is Ok ==> rej_view(*final(rej)) == flags_step(rej_view(*old(rej)), b@, pos as int),
        match r {
            Ok(p) => instr_end(b@, pos as int) == Some(p as int) && pos < p <= b@.len()
                && walk_state_ok(*final(f), imported, final(frames)@, *final(loop_depth), p as int),
            Err(_) => instr_end(b@, pos as int) is None && calls_consistent(*final(f), imported)
                && final(f).max_loop_depth <= final(f).loop_count && final(f).max_loop_depth
                <= final(f).max_block_depth,
        },
{
    proof {
        reveal_with_fuel(lebs_end, 3);
        lemma_open_loops_bounded(frames@);
    }
    let op = b[pos];
    let q = pos + 1;
    if is_float_opcode(op) {
        f.float_ops = inc(f.float_ops);
        rej.floating_point = true;
    }
    if 0x02 <= op && op <= 0x04 {
        let bt = read_byte(b, q)?;
        let mut p = q + 1;
        if bt >= 128 {
            p = skip_sleb(b, q + 1, 4)?;
        }
        if bt >= 128 || bt < 0x40 {
            rej.multi_value = true;
        }
        let ghost old_frames = frames@;
        if op == 0x03 {
            frames.push(true);
            *loop_depth = *loop_depth + 1;
            f.loop_count = f.loop_count + 1;
            if *loop_depth > f.max_loop_depth {
                f.max_loop_depth = *loop_depth;
            }
        } else {
            frames.push(false);
        }
        assert(frames@.drop_last() =~= old_frames);
        let depth = frames.len() as u32;
        if depth > f.max_block_depth {
            f.max_block_depth = depth;
        }
        Ok(p)
    } else if op == 0x0B {
        let ghost old_frames = frames@;
        match frames.pop() {
            Some(true) => {
                assert(old_frames.drop_last() =~= frames@);
                *loop_depth = *loop_depth - 1;
            },
            Some(false) => {
                assert(old_frames.drop_last() =~= frames@);
            },
            None => {},
        }
        Ok(q)
    } else if op == 0x0C || op == 0x0D {
        let p = skip_lebs(b, q, 1)?;
        f.branch_count = inc(f.branch_count);
        Ok(p)
    } else if op == 0x0E {
        let (n, p) = read_u32(b, q)?;
        let p = skip_lebs(b, p, n as u64 + 1)?;
        f.branch_count = inc(f.branch_count);
        Ok(p)
    } else if op == 0x10 || op == 0x12 {
        if op == 0x12 {
            rej.tail_call = true;
        }
        let (callee, p) = read_u32(b, q)?;
        if callee < imported {
            bump(&mut f.host_calls, callee);
            if *loop_depth > 0 {
                bump(&mut f.host_calls_in_loops, callee);
            }
        } else {
            bump(&mut f.direct_calls, callee);
            if *loop_depth > 0 {
                bump(&mut f.direct_calls_in_loops, callee);
            }
        }
        Ok(p)
    } else if op == 0x11 || op == 0x13 {
        if op == 0x13 {
            rej.tail_call = true;
        }
        let p = skip_lebs(b, q, 2)?;
        f.call_indirect_count = inc(f.call_indirect_count);
        Ok(p)
    } else if op == 0x1C {
        rej.reference_types = true;
        let (n, p) = read_u32(b, q)?;
        skip(b, p, n as usize)
    } else if 0x20 <= op && op <= 0x24 {
        skip_lebs(b, q, 1)
    } else if op == 0x25 || op == 0x26 {
        rej.reference_types = true;
        skip_lebs(b, q, 1)
    } else if 0x28 <= op && op <= 0x35 {
        let p = skip_lebs(b, q, 2)?;
        f.memory_loads = inc(f.memory_loads);
        Ok(p)
    } else if 0x36 <= op && op <= 0x3E {
        let p = skip_lebs(b, q, 2)?;
        f.memory_stores = inc(f.memory_stores);
        Ok(p)
    } else if op == 0x3F {
        skip_lebs(b, q, 1)
    } else if op == 0x40 {
        let p = skip_lebs(b, q, 1)?;
        f.memory_grow = inc(f.memory_grow);
        Ok(p)
    } else if op == 0x41 {
        skip_sleb(b, q, 5)
    } else if op == 0x42 {
        skip_sleb(b, q, 10)
    } else if op == 0x43 {
        skip(b, q, 4)
    } else if op == 0x44 {
        skip(b, q, 8)
    } else if op == 0xD0 {
        rej.reference_types = true;
        skip(b, q, 1)
    } else if op == 0xD1 {
        rej.reference_types = true;
        Ok(q)
    } else if op == 0xD2 {
        rej.reference_types = true;
        skip_lebs(b, q, 1)
    } else if op == 0xFC {
        let (sub, p) = read_u32(b, q)?;
        if sub <= 7 {
            f.float_ops = inc(f.float_ops);
            rej.floating_point = true;
            rej.saturating = true;
            Ok(p)
        } else if sub == 8 {
            let (_, p2) = read_u32(b, p)?;
            let p3 = skip(b, p2, 1)?;
            f.bulk_memory_ops = inc(f.bulk_memory_ops);
            Ok(p3)
        } else if sub == 9 {
            let p2 = skip_lebs(b, p, 1)?;
            f.bulk_memory_ops = inc(f.bulk_memory_ops);
            Ok(p2)
        } else if sub == 10 {
            let p2 = skip(b, p, 2)?;
            f.bulk_memory_ops = inc(f.bulk_memory_ops);
            Ok(p2)
        } else if sub == 11 {
            let p2 = skip(b, p, 1)?;
            f.bulk_memory_ops = inc(f.bulk_memory_ops);
            Ok(p2)
        } else if sub == 12 || sub == 14 {
            skip_lebs(b, p, 2)
        } else if sub == 13 {
            skip_lebs(b, p, 1)
        } else if 15 <= sub && sub <= 17 {
            rej.reference_types = true;
            skip_lebs(b, p, 1)
        } else {
            Err(DecodeError::UnknownFcSubOpcode(sub))
        }
    } else if op == 0xFD {
        rej.simd = true;
        Err(DecodeError::Simd)
    } else if op == 0x00 || op == 0x01 || op == 0x05 || op == 0x0F || op == 0x1A || op == 0x1B
        || (0x45 <= op && op <= 0xC4) {
        Ok(q)
    } else {
        Err(DecodeError::UnknownOpcode(op))
    }
}

/// `Some(n + k)` when the count is known.
pub open spec fn plus_count(o: Option<nat>, k: nat) -> Option<nat> {
    match o {
        Some(n) => Some(n + k),
        None => None,
    }
}

/// Walks the local declarations and instructions of a body.
fn walk_body_inner(b: &[u8], imported: u32, f: &mut FunctionBody, rej: &mut Rejected) -> (r: Result<
    (),
    DecodeError,
>)
    requires
        b@.len() <= u32::MAX,
        old(f).instruction_count == 0,
        old(f).loop_count == 0,
        old(f).max_loop_depth == 0,
        old(f).float_ops == 0,
        rej_view(*old(rej)) == (false, false, false, false, false, false),
        calls_consistent(*old(f), imported),
        stats_of(*old(f), Seq::empty()) == empty_stats(),
    ensures
        has_stats(*final(f), body_stats(b@, imported)),
        r is Ok ==> final(f).float_ops == body_floats(b@),
        r is Ok ==> rej_view(*final(rej)) == body_flags(b@),
        (r is Ok) == (body_instructions(b@) is Some),
        r is Ok ==> final(f).instruction_count == body_instructions(b@)->Some_0,
        calls_consistent(*final(f), imported),
        final(f).index == old(f).index,
        final(f).body_bytes == old(f).body_bytes,
        final(f).name == old(f).name,
        final(f).decode_error == old(f).decode_error,
{
    let len = b.len();
    let (groups, p0) = read_u32(b, 0)?;
    let mut p = p0;
    let mut k: u32 = 0;
    while k < groups
        invariant
            len == b@.len(),
            p <= b@.len(),
            k <= groups,
            leb_u32(b@, 0) == Some((groups as nat, p0 as int)),
            locals_end(b@, p as int, (groups - k) as nat) == locals_end(b@, p0 as int, groups as nat),
            locals_floats(b@, p as int, (groups - k) as nat, f.float_ops) == locals_floats(
                b@,
                p0 as int,
                groups as nat,
                0,
            ),
            locals_flags(b@, p as int, (groups - k) as nat, rej_view(*rej)) == locals_flags(
                b@,
                p0 as int,
                groups as nat,
                (false, false, false, false, false, false),
            ),
            old(f).index == f.index,
            old(f).body_bytes == f.body_bytes,
            old(f).name == f.name,
            old(f).decode_error == f.decode_error,
            f.instruction_count == 0,
            f.loop_count == 0,
            f.max_loop_depth == 0,
            calls_consistent(*f, imported),
            stats_of(*f, Seq::empty()) == empty_stats(),
        decreases groups - k,
    {
        let (_, p2) = read_u32(b, p)?;
        let ty = read_byte(b, p2)?;
        if ty == 0x7D || ty == 0x7C {
            f.float_ops = inc(f.float_ops);
            rej.floating_point = true;
        }
        p = p2 + 1;
        k += 1;
    }
    let ghost start = p as int;
    let mut frames: Vec<bool> = Vec::new();
    let mut loop_depth: u32 = 0;
    while p < len
        invariant
            len == b@.len(),
            len <= u32::MAX,
            start <= p <= len,
            walk_state_ok(*f, imported, frames@, loop_depth, p as int),
            f.instruction_count <= p,
            instr_count_from(b@, start) == plus_count(
                instr_count_from(b@, p as int),
                f.instruction_count as nat,
            ),
            old(f).index == f.index,
            old(f).body_bytes == f.body_bytes,
            old(f).name == f.name,
            old(f).decode_error == f.decode_error,
            body_instructions(b@) == instr_count_from(b@, start),
            body_stats(b@, imported) == stats_from(b@, p as int, stats_of(*f, frames@), imported),
            body_floats(b@) == floats_from(b@, p as int, f.float_ops),
            body_flags(b@) == flags_from(b@, p as int, rej_view(*rej)),
        decreases len - p,
    {
        f.instruction_count = f.instruction_count + 1;
        let np = step(b, p, imported, f, rej, &mut frames, &mut loop_depth)?;
        p = np;
    }
    Ok(())
}

/// Names of the rejected constructs, in sorted order.
pub open spec fn feature_rank(name: Seq<char>) -> int {
    if name == "floating-point"@ {
        0
    } else if name == "multi-value"@ {
        1
    } else if name == "reference-types"@ {
        2
    } else if name == "saturating-float-to-int"@ {
        3
    } else if name == "simd"@ {
        4
    } else if name == "tail-call"@ {
        5
    } else {
        6
    }
}

/// Every entry is a known rejected construct, and entries are in sorted
/// order without repeats.
pub open spec fn features_sorted(v: Seq<String>) -> bool {
    &&& forall|i: int| 0 <= i < v.len() ==> feature_rank(#[trigger] v[i]@) < 6
    &&& forall|i: int, j: int|
        0 <= i < j < v.len() ==> feature_rank(#[trigger] v[i]@) < feature_rank(#[trigger] v[j]@)
}

/// Appends the feature of rank `rank` named `name`.
fn push_feature(v: &mut Vec<String>, name: &str, rank: Ghost<int>)
    requires
        features_sorted(old(v)@),
        feature_rank(name@) == rank@,
        0 <= rank@ < 6,
        forall|i: int| 0 <= i < old(v)@.len() ==> feature_rank(#[trigger] old(v)@[i]@) < rank@,
    ensures
        features_sorted(final(v)@),
        final(v)@.len() == old(v)@.len() + 1,
        forall|i: int| 0 <= i < final(v)@.len() ==> feature_rank(#[trigger] final(v)@[i]@) <= rank@,
        string_views(final(v)@) == string_views(old(v)@).push(name@),
{
    let s = to_owned_string(name);
    proof {
        crate::text::lemma_string_views_push(v@, s);
    }
    v.push(s);
}

/// The names of the rejected constructs that `fl` flags, in sorted order.
pub open spec fn flag_names(fl: (bool, bool, bool, bool, bool, bool)) -> Seq<Seq<char>> {
    let s0 = Seq::<Seq<char>>::empty();
    let s1 = if fl.0 {
        s0.push("floating-point"@)
    } else {
        s0
    };
    let s2 = if fl.1 {
        s1.push("multi-value"@)
    } else {
        s1
    };
    let s3 = if fl.2 {
        s2.push("reference-types"@)
    } else {
        s2
    };
    let s4 = if fl.3 {
        s3.push("saturating-float-to-int"@)
    } else {
        s3
    };
    let s5 = if fl.4 {
        s4.push("simd"@)
    } else {
        s4
    };
    if fl.5 {
        s5.push("tail-call"@)
    } else {
        s5
    }
}

spec fn rej_view(rej: Rejected) -> (bool, bool, bool, bool, bool, bool) {
    (rej.floating_point, rej.multi_value, rej.reference_types, rej.saturating, rej.simd, rej.tail_call)
}

/// The names of the constructs a body uses that Soroban rejects, in sorted
/// order.
spec fn rejected_names(rej: Rejected) -> Seq<Seq<char>> {
    flag_names(rej_view(rej))
}

fn rejected_list(rej: &Rejected) -> (v: Vec<String>)
    ensures
        features_sorted(v@),
        string_views(v@) == rejected_names(*rej),
{
    proof {
        reveal_strlit("floating-point");
        reveal_strlit("multi-value");
        reveal_strlit("reference-types");
        reveal_strlit("saturating-float-to-int");
        reveal_strlit("simd");
        reveal_strlit("tail-call");
        assert("floating-point"@.len() == 14);
        assert("multi-value"@.len() == 11);
        assert("reference-types"@.len() == 15);
        assert("saturating-float-to-int"@.len() == 23);
        assert("simd"@.len() == 4);
        assert("tail-call"@.len() == 9);
    }
    let mut v: Vec<String> = Vec::new();
    assert(string_views(v@) =~= Seq::<Seq<char>>::empty());
    if rej.floating_point {
        push_feature(&mut v, "floating-point", Ghost(0));
    }
    if rej.multi_value {
        push_feature(&mut v, "multi-value", Ghost(1));
    }
    if rej.reference_types {
        push_feature(&mut v, "reference-types", Ghost(2));
    }
    if rej.saturating {
        push_feature(&mut v, "saturating-float-to-int", Ghost(3));
    }
    if rej.simd {
        push_feature(&mut v, "simd", Ghost(4));
    }
    if rej.tail_call {
        push_feature(&mut v, "tail-call", Ghost(5));
    }
    v
}

/// Profile of one function body. Problems inside the body are recorded in
/// `decode_error` so one exotic function does not hide the rest.
pub fn walk_body(body: &[u8], index: u32, imported: u32) -> (f: FunctionBody)
    requires
        body@.len() <= u32::MAX,
    ensures
        f.index == index,
        f.body_bytes == body@.len(),
        f.name is None,
        (f.decode_error is None) == (body_instructions(body@) is Some),
        f.decode_error is None ==> f.instruction_count == body_instructions(body@)->Some_0,
        calls_consistent(f, imported),
        features_sorted(f.rejected_features@),
        has_stats(f, body_stats(body@, imported)),
        f.decode_error is None ==> f.float_ops == body_floats(body@),
        f.decode_error is None ==> string_views(f.rejected_features@) == flag_names(body_flags(body@)),
{
    let mut f = empty_body(index, body.len());
    assert(stats_of(f, Seq::empty()) == empty_stats());
    let mut rej = Rejected {
        floating_point: false,
        multi_value: false,
        reference_types: false,
        saturating: false,
        simd: false,
        tail_call: false,
    };
    let r = walk_body_inner(body, imported, &mut f, &mut rej);
    match r {
        Ok(()) => {},
        Err(e) => {
            f.decode_error = Some(e.message());
        },
    }
    f.rejected_features = rejected_list(&rej);
    f
}

// ── Modules ──────────────────────────────────────────────────────────────────

/// The function imports (kind 0), in order.
pub open spec fn func_imports(s: Seq<Import>) -> Seq<Import>
    decreases s.len(),
{
    if s.len() == 0 {
        Seq::empty()
    } else if s.last().kind == 0 {
        func_imports(s.drop_last()).push(s.last())
    } else {
        func_imports(s.drop_last())
    }
}

proof fn lemma_func_imports_len(s: Seq<Import>)
    ensures
        func_imports(s).len() <= s.len(),
    decreases s.len(),
{
    if s.len() > 0 {
        lemma_func_imports_len(s.drop_last());
    }
}

/// The function exports (kind 0), in order.
pub open spec fn func_exports(s: Seq<Export>) -> Seq<Export>
    decreases s.len(),
{
    if s.len() == 0 {
        Seq::empty()
    } else if s.last().kind == 0 {
        func_exports(s.drop_last()).push(s.last())
    } else {
        func_exports(s.drop_last())
    }
}

/// `min(n, u32::MAX)`.
pub open spec fn cap_u32(n: nat) -> u32 {
    if n > u32::MAX {
        u32::MAX
    } else {
        n as u32
    }
}

/// Sum of custom-section sizes whose names are not Soroban metadata,
/// saturating at `usize::MAX`.
pub open spec fn strippable_sum(s: Seq<(String, usize)>) -> usize
    decreases s.len(),
{
    if s.len() == 0 {
        0
    } else {
        let rest = strippable_sum(s.drop_last());
        if is_metadata_name(s.last().0@) {
            rest
        } else if rest + s.last().1 > usize::MAX {
            usize::MAX
        } else {
            (rest + s.last().1) as usize
        }
    }
}

/// Sum of instruction counts, saturating at `u64::MAX`.
pub open spec fn instruction_sum(s: Seq<FunctionBody>) -> u64
    decreases s.len(),
{
    if s.len() == 0 {
        0
    } else {
        let rest = instruction_sum(s.drop_last());
        if rest + s.last().instruction_count > u64::MAX {
            u64::MAX
        } else {
            (rest + s.last().instruction_count) as u64
        }
    }
}

impl WasmModule {
    /// Number of imported functions (they occupy the low function indices).
    pub fn imported_function_count(&self) -> (r: u32)
        ensures
            r == cap_u32(func_imports(self.imports@).len()),
    {
        let mut n: usize = 0;
        let mut i: usize = 0;
        while i < self.imports.len()
            invariant
                i <= self.imports@.len(),
                n as nat == func_imports(self.imports@.take(i as int)).len(),
                n <= i,
            decreases self.imports@.len() - i,
        {
            assert(self.imports@.take(i + 1).drop_last() =~= self.imports@.take(i as int));
            if self.imports[i].kind == 0 {
                n += 1;
            }
            i += 1;
        }
        assert(self.imports@.take(i as int) =~= self.imports@);
        if n > 0xffff_ffff {
            0xffff_ffff
        } else {
            n as u32
        }
    }

    /// Import record for a function index, if it refers to an import.
    pub fn import_for_function(&self, func_index: u32) -> (r: Option<&Import>)
        ensures
            match r {
                Some(imp) => func_index < func_imports(self.imports@).len() && *imp == func_imports(
                    self.imports@,
                )[func_index as int],
                None => func_index >= func_imports(self.imports@).len(),
            },
    {
        let mut seen: usize = 0;
        let mut i: usize = 0;
        while i < self.imports.len()
            invariant
                i <= self.imports@.len(),
                seen as nat == func_imports(self.imports@.take(i as int)).len(),
                seen <= func_index,
                seen <= i,
            decreases self.imports@.len() - i,
        {
            let ghost prefix = self.imports@.take(i as int);
            assert(self.imports@.take(i + 1).drop_last() =~= prefix);
            if self.imports[i].kind == 0 {
                if seen == func_index as usize {
                    proof {
                        lemma_func_imports_prefix(self.imports@, i + 1);
                    }
                    return Some(&self.imports[i]);
                }
                seen += 1;
            }
            i += 1;
        }
        assert(self.imports@.take(i as int) =~= self.imports@);
        None
    }

    /// Defined function body for an absolute function index.
    pub fn body_for_function(&self, func_index: u32) -> (r: Option<&FunctionBody>)
        ensures
            match r {
                Some(f) => {
                    let imported = cap_u32(func_imports(self.imports@).len());
                    &&& func_index >= imported
                    &&& func_index - imported < self.functions@.len()
                    &&& *f == self.functions@[func_index - imported]
                },
                None => func_index < cap_u32(func_imports(self.imports@).len()) || func_index
                    - cap_u32(func_imports(self.imports@).len()) >= self.functions@.len(),
            },
    {
        let imported = self.imported_function_count();
        if func_index < imported {
            return None;
        }
        let k = (func_index - imported) as usize;
        if k < self.functions.len() {
            Some(&self.functions[k])
        } else {
            None
        }
    }

    /// Exported functions (kind 0), in export order.
    pub fn function_exports(&self) -> (r: Vec<&Export>)
        ensures
            r@.len() == func_exports(self.exports@).len(),
            forall|i: int| 0 <= i < r@.len() ==> *(#[trigger] r@[i]) == func_exports(self.exports@)[i],
    {
        let mut r: Vec<&Export> = Vec::new();
        let mut i: usize = 0;
        while i < self.exports.len()
            invariant
                i <= self.exports@.len(),
                r@.len() == func_exports(self.exports@.take(i as int)).len(),
                forall|k: int|
                    0 <= k < r@.len() ==> *(#[trigger] r@[k]) == func_exports(
                        self.exports@.take(i as int),
                    )[k],
            decreases self.exports@.len() - i,
        {
            assert(self.exports@.take(i + 1).drop_last() =~= self.exports@.take(i as int));
            if self.exports[i].kind == 0 {
                r.push(&self.exports[i]);
            }
            i += 1;
        }
        assert(self.exports@.take(i as int) =~= self.exports@);
        r
    }

    /// Bytes spent on custom sections that carry no runtime meaning for
    /// Soroban (everything except the contract spec/meta sections).
    pub fn strippable_custom_bytes(&self) -> (r: usize)
        ensures
            r == strippable_sum(self.custom_sections@),
    {
        let mut total: usize = 0;
        let mut i: usize = 0;
        while i < self.custom_sections.len()
            invariant
                i <= self.custom_sections@.len(),
                total == strippable_sum(self.custom_sections@.take(i as int)),
            decreases self.custom_sections@.len() - i,
        {
            assert(self.custom_sections@.take(i + 1).drop_last() =~= self.custom_sections@.take(
                i as int,
            ));
            let (name, bytes) = &self.custom_sections[i];
            if !is_soroban_metadata_section(name.as_str()) {
                total = total.saturating_add(*bytes);
            }
            i += 1;
        }
        assert(self.custom_sections@.take(i as int) =~= self.custom_sections@);
        total
    }

    /// Instructions across all function bodies.
    pub fn total_instructions(&self) -> (r: u64)
        ensures
            r == instruction_sum(self.functions@),
    {
        let mut total: u64 = 0;
        let mut i: usize = 0;
        while i < self.functions.len()
            invariant
                i <= self.functions@.len(),
                total == instruction_sum(self.functions@.take(i as int)),
            decreases self.functions@.len() - i,
        {
            assert(self.functions@.take(i + 1).drop_last() =~= self.functions@.take(i as int));
            total = total.saturating_add(self.functions[i].instruction_count);
            i += 1;
        }
        assert(self.functions@.take(i as int) =~= self.functions@);
        total
    }
}

/// The function imports of a prefix ending in a function import end with it.
proof fn lemma_func_imports_prefix(s: Seq<Import>, n: int)
    requires
        0 < n <= s.len(),
        s[n - 1].kind == 0,
    ensures
        func_imports(s.take(n)).len() == func_imports(s.take(n - 1)).len() + 1,
        func_imports(s.take(n))[func_imports(s.take(n - 1)).len() as int] == s[n - 1],
        func_imports(s).len() >= func_imports(s.take(n)).len(),
        func_imports(s)[func_imports(s.take(n - 1)).len() as int] == s[n - 1],
{
    assert(s.take(n).drop_last() =~= s.take(n - 1));
    lemma_func_imports_extends(s, n, s.len() as int);
    assert(s.take(s.len() as int) =~= s);
}

/// Extending the imports only appends function imports.
proof fn lemma_func_imports_extends(s: Seq<Import>, n: int, m: int)
    requires
        0 <= n <= m <= s.len(),
    ensures
        func_imports(s.take(m)).len() >= func_imports(s.take(n)).len(),
        forall|k: int|
            0 <= k < func_imports(s.take(n)).len() ==> func_imports(s.take(m))[k] == func_imports(
                s.take(n),
            )[k],
    decreases m - n,
{
    if m > n {
        lemma_func_imports_extends(s, n, m - 1);
        assert(s.take(m).drop_last() =~= s.take(m - 1));
    }
}

// ── Module decoding ──────────────────────────────────────────────────────────

/// The (index, name) entries of a function-names subsection payload `p`,
/// entries `k..count` starting at position `q`, and whether they all read.
pub open spec fn name_entries_from(p: Seq<u8>, q: int, k: nat, count: nat) -> (
    Seq<(u32, Seq<char>)>,
    bool,
)
    decreases count - k,
{
    if k >= count {
        (Seq::empty(), true)
    } else {
        match leb_u32(p, q) {
            None => (Seq::empty(), false),
            Some((idx, q2)) => match name_at(p, q2) {
                None => (Seq::empty(), false),
                Some((t, q3)) => {
                    let rest = name_entries_from(p, q3, k + 1, count);
                    (seq![(idx as u32, t)] + rest.0, rest.1)
                },
            },
        }
    }
}

/// The entries of a function-names subsection payload: a count, then that
/// many (index, name) pairs.
pub open spec fn subsection_names(payload: Seq<u8>) -> (Seq<(u32, Seq<char>)>, bool) {
    match leb_u32(payload, 0) {
        None => (Seq::empty(), false),
        Some((count, q)) => name_entries_from(payload, q, 0, count),
    }
}

/// The function-name entries of the `name` section's subsections from `pos`
/// on (subsection id 1 holds them; the others are skipped), in order, up to
/// the first that does not read, and whether everything read.
pub open spec fn name_section_from(b: Seq<u8>, pos: int) -> (Seq<(u32, Seq<char>)>, bool)
    decreases b.len() - pos,
{
    if pos < 0 || pos >= b.len() {
        (Seq::empty(), true)
    } else {
        match leb_u32(b, pos + 1) {
            None => (Seq::empty(), false),
            Some((size, p)) => match bytes_end(b, p, size as int) {
                None => (Seq::empty(), false),
                Some(end) => {
                    let here = if b[pos] == 1 {
                        subsection_names(b.subrange(p, end))
                    } else {
                        (Seq::empty(), true)
                    };
                    if !here.1 || end <= pos {
                        (here.0, false)
                    } else {
                        let rest = name_section_from(b, end);
                        (here.0 + rest.0, rest.1)
                    }
                },
            },
        }
    }
}

/// `m` with the entries inserted in order (a later entry for an index wins).
pub open spec fn with_names(m: Map<u32, Seq<char>>, e: Seq<(u32, Seq<char>)>) -> Map<u32, Seq<char>>
    decreases e.len(),
{
    if e.len() == 0 {
        m
    } else {
        with_names(m, e.drop_last()).insert(e.last().0, e.last().1)
    }
}

/// A name map as plain values.
pub open spec fn name_map(m: Map<u32, String>) -> Map<u32, Seq<char>> {
    m.map_values(|s: String| s@)
}

proof fn lemma_name_map_insert(m: Map<u32, String>, k: u32, s: String)
    ensures
        name_map(m.insert(k, s)) == name_map(m).insert(k, s@),
{
    assert(name_map(m.insert(k, s)) =~= name_map(m).insert(k, s@));
}

proof fn lemma_with_names_push(m: Map<u32, Seq<char>>, e: Seq<(u32, Seq<char>)>, x: (u32, Seq<char>))
    ensures
        with_names(m, e.push(x)) == with_names(m, e).insert(x.0, x.1),
{
    assert(e.push(x).drop_last() =~= e);
}

/// Function names from the `name` custom section (best effort): every
/// (index, name) entry that reads is inserted, in order, until one does not.
fn parse_name_section(b: &[u8], names: &mut BTreeMap<u32, String>) -> (r: Result<(), DecodeError>)
    ensures
        r matches Err(e) ==> !(e is NotWasm),
        name_map(final(names)@) == with_names(name_map(old(names)@), name_section_from(b@, 0).0),
        r is Ok <==> name_section_from(b@, 0).1,
{
    let ghost orig = name_map(names@);
    let ghost total = name_section_from(b@, 0);
    let ghost mut done: Seq<(u32, Seq<char>)> = Seq::empty();
    let len = b.len();
    let mut pos: usize = 0;
    while pos < len
        invariant
            len == b@.len(),
            pos <= len,
            orig == name_map(old(names)@),
            total == name_section_from(b@, 0),
            total.0 == done + name_section_from(b@, pos as int).0,
            total.1 == name_section_from(b@, pos as int).1,
            name_map(names@) == with_names(orig, done),
        decreases len - pos,
    {
        let ghost here_total = name_section_from(b@, pos as int);
        let sub_id = match read_byte(b, pos) {
            Ok(v) => v,
            Err(e) => {
                assert(false);
                return Err(e);
            },
        };
        let (size, p) = match read_u32(b, pos + 1) {
            Ok(x) => x,
            Err(e) => {
                assert(done + Seq::<(u32, Seq<char>)>::empty() =~= done);
                return Err(e);
            },
        };
        let size = size as usize;
        let end = match skip(b, p, size) {
            Ok(x) => x,
            Err(e) => {
                assert(done + Seq::<(u32, Seq<char>)>::empty() =~= done);
                return Err(e);
            },
        };
        if sub_id == 1 {
            let payload = copy_bytes(b, p, size);
            assert(payload@ == b@.subrange(p as int, end as int));
            let (count, mut q) = match read_u32(&payload, 0) {
                Ok(x) => x,
                Err(e) => {
                    assert(done + Seq::<(u32, Seq<char>)>::empty() =~= done);
                    return Err(e);
                },
            };
            let ghost q0 = q;
            let ghost inner = name_entries_from(payload@, q0 as int, 0, count as nat);
            let ghost mut got: Seq<(u32, Seq<char>)> = Seq::empty();
            let mut k: u32 = 0;
            while k < count
                invariant
                    q <= payload@.len(),
                    k <= count,
                    orig == name_map(old(names)@),
                    total == name_section_from(b@, 0),
                    inner == name_entries_from(payload@, q0 as int, 0, count as nat),
                    inner.0 == got + name_entries_from(payload@, q as int, k as nat, count as nat).0,
                    inner.1 == name_entries_from(payload@, q as int, k as nat, count as nat).1,
                    name_map(names@) == with_names(orig, done + got),
                    total.0 == done + here_total.0,
                    total.1 == here_total.1,
                    here_total == name_section_from(b@, pos as int),
                    pos < len,
                    len == b@.len(),
                    b@[pos as int] == 1,
                    leb_u32(b@, pos + 1) == Some((size as nat, p as int)),
                    bytes_end(b@, p as int, size as int) == Some(end as int),
                    payload@ == b@.subrange(p as int, end as int),
                    leb_u32(payload@, 0) == Some((count as nat, q0 as int)),
                decreases count - k,
            {
                let (idx, q2) = match read_u32(&payload, q) {
                    Ok(x) => x,
                    Err(e) => {
                        assert(got + Seq::<(u32, Seq<char>)>::empty() =~= got);
                        assert(done + got + Seq::<(u32, Seq<char>)>::empty() =~= done + got);
                        return Err(e);
                    },
                };
                let (name, q3) = match read_name(&payload, q2) {
                    Ok(x) => x,
                    Err(e) => {
                        assert(got + Seq::<(u32, Seq<char>)>::empty() =~= got);
                        assert(done + got + Seq::<(u32, Seq<char>)>::empty() =~= done + got);
                        return Err(e);
                    },
                };
                let ghost x = (idx, name@);
                proof {
                    let rest = name_entries_from(payload@, q3 as int, (k + 1) as nat, count as nat);
                    assert(got + (seq![x] + rest.0) =~= got.push(x) + rest.0);
                    lemma_name_map_insert(names@, idx, name);
                    lemma_with_names_push(orig, done + got, x);
                    assert((done + got).push(x) =~= done + got.push(x));
                    got = got.push(x);
                }
                names.insert(idx, name);
                q = q3;
                k += 1;
            }
            proof {
                assert(got + Seq::<(u32, Seq<char>)>::empty() =~= got);
                assert(subsection_names(payload@) == inner);
                if !inner.1 {
                    assert(done + got + Seq::<(u32, Seq<char>)>::empty() =~= done + got);
                }
            }
            if !(k >= count) {
                assert(false);
            }
            proof {
                assert(inner.0 == got);
                let rest = name_section_from(b@, end as int);
                assert(here_total == (got + rest.0, rest.1));
                assert(done + (got + rest.0) =~= (done + got) + rest.0);
                done = done + got;
            }
        } else {
            proof {
                assert(Seq::<(u32, Seq<char>)>::empty() + name_section_from(b@, end as int).0
                    =~= name_section_from(b@, end as int).0);
            }
        }
        pos = end;
    }
    assert(done + Seq::<(u32, Seq<char>)>::empty() =~= done);
    Ok(())
}

/// Import records agree with the host function table.
pub open spec fn import_consistent(i: Import) -> bool {
    if i.kind == 0 {
        &&& i.category == categorize_spec(i.module@, i.field@)
        &&& match host_name_spec(i.module@, i.field@) {
            Some(n) => i.host_name is Some && i.host_name->Some_0@ == n,
            None => i.host_name is None,
        }
    } else {
        i.category == HostCategory::Unknown && i.host_name is None
    }
}

/// What every successfully decoded module satisfies.
pub open spec fn module_consistent(m: WasmModule, size: nat) -> bool {
    let imported = cap_u32(func_imports(m.imports@).len());
    &&& m.size_bytes == size
    &&& m.functions@.len() <= MAX_FUNCTIONS
    &&& forall|j: int| 0 <= j < m.imports@.len() ==> import_consistent(#[trigger] m.imports@[j])
    &&& forall|i: int|
        0 <= i < m.functions@.len() ==> {
            &&& (#[trigger] m.functions@[i]).index == imported + i
            &&& calls_consistent(m.functions@[i], imported)
            &&& features_sorted(m.functions@[i].rejected_features@)
        }
}

/// Custom sections as plain values.
pub open spec fn custom_views(v: Seq<(String, usize)>) -> Seq<(Seq<char>, usize)> {
    v.map_values(|c: (String, usize)| (c.0@, c.1))
}

/// Index of the first custom section named `name` from index `i` on.
pub open spec fn section_index_from(s: Seq<(Seq<char>, usize)>, name: Seq<char>, i: int) -> Option<int>
    decreases s.len() - i,
{
    if i < 0 || i >= s.len() {
        None
    } else if s[i].0 == name {
        Some(i)
    } else {
        section_index_from(s, name, i + 1)
    }
}

/// The custom sections after `size` more bytes of section `name`: an existing
/// section grows (saturating), a new name is appended.
pub open spec fn added_custom(s: Seq<(Seq<char>, usize)>, name: Seq<char>, size: usize) -> Seq<
    (Seq<char>, usize),
> {
    match section_index_from(s, name, 0) {
        Some(i) => s.update(i, (s[i].0, sat_add(s[i].1, size))),
        None => s.push((name, size)),
    }
}

/// `a + b`, saturating at `usize::MAX`.
pub open spec fn sat_add(a: usize, b: usize) -> usize {
    if a + b > usize::MAX {
        usize::MAX
    } else {
        (a + b) as usize
    }
}

/// Adds `size` bytes to the custom section `name`.
fn add_custom(sections: &mut Vec<(String, usize)>, name: String, size: usize)
    ensures
        custom_views(final(sections)@) == added_custom(custom_views(old(sections)@), name@, size),
{
    let ghost start = custom_views(sections@);
    let mut i: usize = 0;
    while i < sections.len()
        invariant
            start == custom_views(old(sections)@),
            sections@ == old(sections)@,
            i <= sections@.len(),
            section_index_from(start, name@, 0) == section_index_from(start, name@, i as int),
        decreases sections@.len() - i,
    {
        if crate::text::str_eq(sections[i].0.as_str(), name.as_str()) {
            assert(section_index_from(start, name@, i as int) == Some(i as int));
            let (n, prior) = sections.remove(i);
            sections.insert(i, (n, prior.saturating_add(size)));
            assert(custom_views(sections@) =~= start.update(
                i as int,
                (start[i as int].0, sat_add(start[i as int].1, size)),
            ));
            return;
        }
        i += 1;
    }
    sections.push((name, size));
    assert(custom_views(sections@) =~= start.push((name@, size)));
}

/// An import entry at `pos`: its module, field and kind, the initial pages of
/// a memory import (0 for the other kinds), and the position after it;
/// `None` when it cannot be read or its kind is unknown.
pub open spec fn import_at(s: Seq<u8>, pos: int) -> Option<(Seq<char>, Seq<char>, u8, nat, int)> {
    match name_at(s, pos) {
        None => None,
        Some((module, p1)) => match name_at(s, p1) {
            None => None,
            Some((field, p2)) => if p2 < 0 || p2 >= s.len() {
                None
            } else {
                let kind = s[p2];
                let p = p2 + 1;
                if kind == 0 {
                    match leb_u32(s, p) {
                        Some((_, q)) => Some((module, field, kind, 0nat, q)),
                        None => None,
                    }
                } else if kind == 1 {
                    if p >= s.len() {
                        None
                    } else {
                        match limits_at(s, p + 1) {
                            Some((_, q)) => Some((module, field, kind, 0nat, q)),
                            None => None,
                        }
                    }
                } else if kind == 2 {
                    match limits_at(s, p) {
                        Some((pages, q)) => Some((module, field, kind, pages, q)),
                        None => None,
                    }
                } else if kind == 3 {
                    match bytes_end(s, p, 2) {
                        Some(q) => Some((module, field, kind, 0nat, q)),
                        None => None,
                    }
                } else {
                    None
                }
            },
        },
    }
}

/// `a + b`, saturating at `u64::MAX`.
pub open spec fn add_pages(a: u64, b: nat) -> u64 {
    if a + b > u64::MAX {
        u64::MAX
    } else {
        (a + b) as u64
    }
}

/// The module after recording an import of `kind` whose memory has `pages`
/// initial pages: a memory import adds its pages and one memory; the imports
/// themselves are given separately.
pub open spec fn after_import(m: WasmModule, imports: Vec<Import>, kind: u8, pages: nat) -> WasmModule {
    if kind == 2 {
        WasmModule {
            imports,
            initial_memory_pages: add_pages(m.initial_memory_pages, pages),
            memory_count: inc_sat(m.memory_count),
            ..m
        }
    } else {
        WasmModule { imports, ..m }
    }
}

/// Decodes one import entry and records it.
fn decode_import(s: &[u8], pos: usize, m: &mut WasmModule) -> (r: Result<usize, DecodeError>)
    requires
        pos <= s@.len(),
        forall|j: int| 0 <= j < old(m).imports@.len() ==> import_consistent(#[trigger] old(m).imports@[j]),
    ensures
        r matches Err(e) ==> !(e is NotWasm),
        forall|j: int| 0 <= j < final(m).imports@.len() ==> import_consistent(#[trigger] final(m).imports@[j]),
        final(m).functions == old(m).functions,
        final(m).size_bytes == old(m).size_bytes,
        match import_at(s@, pos as int) {
            None => r is Err && *final(m) == *old(m),
            Some((module, field, kind, pages, end)) => r matches Ok(p) && p == end && p <= s@.len()
                && final(m).imports@.len() == old(m).imports@.len() + 1
                && final(m).imports@.drop_last() == old(m).imports@
                && final(m).imports@.last().module@ == module
                && final(m).imports@.last().field@ == field
                && final(m).imports@.last().kind == kind
                && *final(m) == after_import(*old(m), final(m).imports, kind, pages),
        },
{
    let _n = s.len();
    let (module, p1) = read_name(s, pos)?;
    let (field, p2) = read_name(s, p1)?;
    let kind = read_byte(s, p2)?;
    let mut p = p2 + 1;
    if kind == 0 {
        let (_, q) = read_u32(s, p)?;
        p = q;
    } else if kind == 1 {
        let _ = read_byte(s, p)?;
        let (_, q) = read_limits(s, p + 1)?;
        p = q;
    } else if kind == 2 {
        let (pages, q) = read_limits(s, p)?;
        m.initial_memory_pages = m.initial_memory_pages.saturating_add(pages);
        m.memory_count = m.memory_count.saturating_add(1);
        p = q;
    } else if kind == 3 {
        p = skip(s, p, 2)?;
    } else {
        return Err(DecodeError::UnknownImportKind(kind));
    }
    let (host_name, category) = if kind == 0 {
        let hn = match host_function_name(module.as_str(), field.as_str()) {
            Some(n) => Some(to_owned_string(n)),
            None => None,
        };
        (hn, categorize(module.as_str(), field.as_str()))
    } else {
        (None, HostCategory::Unknown)
    };
    let imp = Import { module, field, kind, host_name, category };
    assert(import_consistent(imp));
    m.imports.push(imp);
    Ok(p)
}

/// What holds of a module while its sections are being read.
pub open spec fn decode_inv(m: WasmModule, size: usize, cb: Seq<Vec<u8>>) -> bool {
    &&& m.size_bytes == size
    &&& m.functions@.len() == 0
    &&& forall|j: int| 0 <= j < m.imports@.len() ==> import_consistent(#[trigger] m.imports@[j])
    &&& cb.len() <= MAX_FUNCTIONS
    &&& forall|k: int| 0 <= k < cb.len() ==> (#[trigger] cb[k])@.len() <= u32::MAX
}

proof fn lemma_add_empty<T>(a: Seq<T>)
    ensures
        a + Seq::<T>::empty() == a,
{
    assert(a + Seq::<T>::empty() =~= a);
}

proof fn lemma_push_concat<T>(a: Seq<T>, x: T, b: Seq<T>)
    ensures
        a + (seq![x] + b) == a.push(x) + b,
        (a + b).push(x) == a + b.push(x),
{
    assert(a + (seq![x] + b) =~= a.push(x) + b);
    assert((a + b).push(x) =~= a + b.push(x));
}

/// `a + b`, saturating at `u32::MAX`.
pub open spec fn sat_add_u32(a: u32, b: u32) -> u32 {
    if a + b > u32::MAX {
        u32::MAX
    } else {
        (a + b) as u32
    }
}

/// Function types `k..count` from `p`: the form byte `0x60`, then the
/// parameter and result vectors, of which the sizes are kept; the entries
/// read before the first that does not, and whether all read.
pub open spec fn types_from(s: Seq<u8>, p: int, k: nat, count: nat) -> (Seq<(u32, u32)>, bool)
    decreases count - k,
{
    if k >= count {
        (Seq::empty(), true)
    } else if p < 0 || p >= s.len() || s[p] != 0x60 {
        (Seq::empty(), false)
    } else {
        match leb_u32(s, p + 1) {
            None => (Seq::empty(), false),
            Some((params, p1)) => match bytes_end(s, p1, params as int) {
                None => (Seq::empty(), false),
                Some(p2) => match leb_u32(s, p2) {
                    None => (Seq::empty(), false),
                    Some((results, p3)) => match bytes_end(s, p3, results as int) {
                        None => (Seq::empty(), false),
                        Some(p4) => {
                            let rest = types_from(s, p4, k + 1, count);
                            (seq![(params as u32, results as u32)] + rest.0, rest.1)
                        },
                    },
                },
            },
        }
    }
}

/// Import entries `k..count` from `p` (module, field, kind, memory pages).
pub open spec fn imports_from(s: Seq<u8>, p: int, k: nat, count: nat) -> (
    Seq<(Seq<char>, Seq<char>, u8, nat)>,
    bool,
)
    decreases count - k,
{
    if k >= count {
        (Seq::empty(), true)
    } else {
        match import_at(s, p) {
            None => (Seq::empty(), false),
            Some((module, field, kind, pages, q)) => {
                let rest = imports_from(s, q, k + 1, count);
                (seq![(module, field, kind, pages)] + rest.0, rest.1)
            },
        }
    }
}

/// `u32`s `k..count` from `p`.
pub open spec fn u32s_from(s: Seq<u8>, p: int, k: nat, count: nat) -> (Seq<u32>, bool)
    decreases count - k,
{
    if k >= count {
        (Seq::empty(), true)
    } else {
        match leb_u32(s, p) {
            None => (Seq::empty(), false),
            Some((v, q)) => {
                let rest = u32s_from(s, q, k + 1, count);
                (seq![v as u32] + rest.0, rest.1)
            },
        }
    }
}

/// The initial pages of memories `k..count` from `p`.
pub open spec fn limits_from(s: Seq<u8>, p: int, k: nat, count: nat) -> (Seq<nat>, bool)
    decreases count - k,
{
    if k >= count {
        (Seq::empty(), true)
    } else {
        match limits_at(s, p) {
            None => (Seq::empty(), false),
            Some((v, q)) => {
                let rest = limits_from(s, q, k + 1, count);
                (seq![v] + rest.0, rest.1)
            },
        }
    }
}

/// Exports `k..count` from `p`: name, kind byte, index.
pub open spec fn exports_from(s: Seq<u8>, p: int, k: nat, count: nat) -> (
    Seq<(Seq<char>, u8, u32)>,
    bool,
)
    decreases count - k,
{
    if k >= count {
        (Seq::empty(), true)
    } else {
        match name_at(s, p) {
            None => (Seq::empty(), false),
            Some((t, p1)) => if p1 < 0 || p1 >= s.len() {
                (Seq::empty(), false)
            } else {
                match leb_u32(s, p1 + 1) {
                    None => (Seq::empty(), false),
                    Some((index, p2)) => {
                        let rest = exports_from(s, p2, k + 1, count);
                        (seq![(t, s[p1], index as u32)] + rest.0, rest.1)
                    },
                }
            },
        }
    }
}

/// Code bodies `k..count` from `p`, each length-prefixed, when `have`
/// bodies are already held (never more than `MAX_FUNCTIONS` in all).
pub open spec fn bodies_from(s: Seq<u8>, p: int, k: nat, count: nat, have: nat) -> (
    Seq<Seq<u8>>,
    bool,
)
    decreases count - k,
{
    if k >= count {
        (Seq::empty(), true)
    } else {
        match leb_u32(s, p) {
            None => (Seq::empty(), false),
            Some((len, q)) => match bytes_end(s, q, len as int) {
                None => (Seq::empty(), false),
                Some(end) => if have >= MAX_FUNCTIONS {
                    (Seq::empty(), false)
                } else {
                    let rest = bodies_from(s, end, k + 1, count, have + 1);
                    (seq![s.subrange(q, end)] + rest.0, rest.1)
                },
            },
        }
    }
}

/// Initial pages after adding each of `e`, saturating.
pub open spec fn pages_after(pages: u64, e: Seq<nat>) -> u64
    decreases e.len(),
{
    if e.len() == 0 {
        pages
    } else {
        add_pages(pages_after(pages, e.drop_last()), e.last())
    }
}

/// Initial pages and memory count after the imports `e`: each memory import
/// adds its pages and one memory, saturating.
pub open spec fn memory_after(pages: u64, mems: u32, e: Seq<(Seq<char>, Seq<char>, u8, nat)>) -> (
    u64,
    u32,
)
    decreases e.len(),
{
    if e.len() == 0 {
        (pages, mems)
    } else {
        let before = memory_after(pages, mems, e.drop_last());
        if e.last().2 == 2 {
            (add_pages(before.0, e.last().3), inc_sat(before.1))
        } else {
            before
        }
    }
}

/// Imports as plain values.
pub open spec fn import_views(v: Seq<Import>) -> Seq<(Seq<char>, Seq<char>, u8)> {
    v.map_values(|i: Import| (i.module@, i.field@, i.kind))
}

/// Import entries without their pages.
pub open spec fn import_entry_views(e: Seq<(Seq<char>, Seq<char>, u8, nat)>) -> Seq<
    (Seq<char>, Seq<char>, u8),
> {
    e.map_values(|x: (Seq<char>, Seq<char>, u8, nat)| (x.0, x.1, x.2))
}

/// Exports as plain values.
pub open spec fn export_views(v: Seq<Export>) -> Seq<(Seq<char>, u8, u32)> {
    v.map_values(|x: Export| (x.name@, x.kind, x.index))
}

/// Code bodies as plain values.
pub open spec fn body_views(v: Seq<Vec<u8>>) -> Seq<Seq<u8>> {
    v.map_values(|b: Vec<u8>| b@)
}

/// The name a custom section payload starts with and the position after it
/// (an unreadable name is empty and takes the whole payload).
pub open spec fn custom_name(s: Seq<u8>) -> (Seq<char>, int) {
    match name_at(s, 0) {
        Some(x) => x,
        None => (Seq::empty(), s.len() as int),
    }
}

/// A section that is a count and then `count` items read by `items`.
pub open spec fn type_section(s: Seq<u8>) -> (Seq<(u32, u32)>, bool) {
    match leb_u32(s, 0) {
        None => (Seq::empty(), false),
        Some((c, p)) => types_from(s, p, 0, c),
    }
}

/// The import section's entries.
pub open spec fn import_section(s: Seq<u8>) -> (Seq<(Seq<char>, Seq<char>, u8, nat)>, bool) {
    match leb_u32(s, 0) {
        None => (Seq::empty(), false),
        Some((c, p)) => imports_from(s, p, 0, c),
    }
}

/// The function section's type indices (refused above `MAX_FUNCTIONS`).
pub open spec fn function_section(s: Seq<u8>) -> (Seq<u32>, bool) {
    match leb_u32(s, 0) {
        None => (Seq::empty(), false),
        Some((c, p)) => if c > MAX_FUNCTIONS {
            (Seq::empty(), false)
        } else {
            u32s_from(s, p, 0, c)
        },
    }
}

/// The memory section's initial pages.
pub open spec fn memory_section(s: Seq<u8>) -> (Seq<nat>, bool) {
    match leb_u32(s, 0) {
        None => (Seq::empty(), false),
        Some((c, p)) => limits_from(s, p, 0, c),
    }
}

/// The export section's entries.
pub open spec fn export_section(s: Seq<u8>) -> (Seq<(Seq<char>, u8, u32)>, bool) {
    match leb_u32(s, 0) {
        None => (Seq::empty(), false),
        Some((c, p)) => exports_from(s, p, 0, c),
    }
}

/// The code section's bodies when `have` are already held (refused above
/// `MAX_FUNCTIONS`).
pub open spec fn code_section(s: Seq<u8>, have: nat) -> (Seq<Seq<u8>>, bool) {
    match leb_u32(s, 0) {
        None => (Seq::empty(), false),
        Some((c, p)) => if c > MAX_FUNCTIONS {
            (Seq::empty(), false)
        } else {
            bodies_from(s, p, 0, c, have)
        },
    }
}

/// What decoding section `id` (payload `s`, `size` bytes) does to the module,
/// the name map and the code bodies, and whether it succeeds. Items read
/// before a failure stay recorded.
pub open spec fn section_applied(
    id: u8,
    s: Seq<u8>,
    size: usize,
    m0: WasmModule,
    m1: WasmModule,
    n0: Map<u32, Seq<char>>,
    n1: Map<u32, Seq<char>>,
    b0: Seq<Seq<u8>>,
    b1: Seq<Seq<u8>>,
    ok: bool,
) -> bool {
    if id == 0 {
        let (name, p) = custom_name(s);
        &&& ok
        &&& m1 == (WasmModule { custom_sections: m1.custom_sections, ..m0 })
        &&& custom_views(m1.custom_sections@) == added_custom(custom_views(m0.custom_sections@), name, size)
        &&& n1 == (if name == "name"@ && p <= s.len() {
            with_names(n0, name_section_from(s.subrange(p, s.len() as int), 0).0)
        } else {
            n0
        })
        &&& b1 == b0
    } else {
        &&& n1 == n0
        &&& (id != 10 ==> b1 == b0)
        &&& if id == 1 {
            &&& ok == type_section(s).1
            &&& m1 == (WasmModule { types: m1.types, ..m0 })
            &&& m1.types@ == m0.types@ + type_section(s).0
        } else if id == 2 {
            let e = import_section(s).0;
            &&& ok == import_section(s).1
            &&& m1 == (WasmModule {
                imports: m1.imports,
                initial_memory_pages: m1.initial_memory_pages,
                memory_count: m1.memory_count,
                ..m0
            })
            &&& import_views(m1.imports@) == import_views(m0.imports@) + import_entry_views(e)
            &&& (m1.initial_memory_pages, m1.memory_count) == memory_after(
                m0.initial_memory_pages,
                m0.memory_count,
                e,
            )
        } else if id == 3 {
            &&& ok == function_section(s).1
            &&& m1 == (WasmModule { function_types: m1.function_types, ..m0 })
            &&& m1.function_types@ == m0.function_types@ + function_section(s).0
        } else if id == 4 || id == 6 || id == 9 || id == 11 {
            match leb_u32(s, 0) {
                None => !ok && m1 == m0,
                Some((n, _)) => ok && m1 == (if id == 4 {
                    WasmModule { table_count: sat_add_u32(m0.table_count, n as u32), ..m0 }
                } else if id == 6 {
                    WasmModule { global_count: n as u32, ..m0 }
                } else if id == 9 {
                    WasmModule { element_segment_count: n as u32, ..m0 }
                } else {
                    WasmModule { data_segment_count: n as u32, data_bytes: size, ..m0 }
                }),
            }
        } else if id == 5 {
            &&& ok == memory_section(s).1
            &&& m1 == (WasmModule {
                initial_memory_pages: pages_after(m0.initial_memory_pages, memory_section(s).0),
                memory_count: if ok {
                    sat_add_u32(m0.memory_count, leb_u32(s, 0)->Some_0.0 as u32)
                } else {
                    m0.memory_count
                },
                ..m0
            })
        } else if id == 7 {
            &&& ok == export_section(s).1
            &&& m1 == (WasmModule { exports: m1.exports, ..m0 })
            &&& export_views(m1.exports@) == export_views(m0.exports@) + export_section(s).0
        } else if id == 8 {
            ok && m1 == (WasmModule { has_start: true, ..m0 })
        } else if id == 10 {
            &&& ok == code_section(s, b0.len()).1
            &&& m1 == m0
            &&& b1 == b0 + code_section(s, b0.len()).0
        } else {
            ok && m1 == m0
        }
    }
}

fn decode_types(s: &[u8], m: &mut WasmModule) -> (r: Result<(), DecodeError>)
    ensures
        r matches Err(e) ==> !(e is NotWasm),
        r is Ok == type_section(s@).1,
        *final(m) == (WasmModule { types: final(m).types, ..*old(m) }),
        final(m).types@ == old(m).types@ + type_section(s@).0,
{
    let _n = s.len();
    let (count, mut p) = read_u32(s, 0)?;
    let ghost total = type_section(s@);
    let ghost mut got: Seq<(u32, u32)> = Seq::empty();
    proof {
        lemma_add_empty(old(m).types@);
    }
    let mut k: u32 = 0;
    while k < count
        invariant
            p <= s@.len(),
            s@.len() <= usize::MAX,
            k <= count,
            total == type_section(s@),
            total.0 == got + types_from(s@, p as int, k as nat, count as nat).0,
            total.1 == types_from(s@, p as int, k as nat, count as nat).1,
            *m == (WasmModule { types: m.types, ..*old(m) }),
            m.types@ == old(m).types@ + got,
        decreases count - k,
    {
        proof {
            lemma_add_empty(got);
        }
        let form = read_byte(s, p)?;
        if form != 0x60 {
            return Err(DecodeError::UnsupportedTypeForm(form));
        }
        let (params, p1) = read_u32(s, p + 1)?;
        let p2 = skip(s, p1, params as usize)?;
        let (results, p3) = read_u32(s, p2)?;
        let p4 = skip(s, p3, results as usize)?;
        proof {
            let rest = types_from(s@, p4 as int, (k + 1) as nat, count as nat);
            lemma_push_concat(got, (params, results), rest.0);
            lemma_push_concat(old(m).types@, (params, results), got);
            got = got.push((params, results));
        }
        m.types.push((params, results));
        p = p4;
        k += 1;
    }
    proof {
        lemma_add_empty(got);
    }
    Ok(())
}

fn decode_imports(s: &[u8], m: &mut WasmModule) -> (r: Result<(), DecodeError>)
    requires
        forall|j: int| 0 <= j < old(m).imports@.len() ==> import_consistent(#[trigger] old(m).imports@[j]),
    ensures
        r matches Err(e) ==> !(e is NotWasm),
        forall|j: int| 0 <= j < final(m).imports@.len() ==> import_consistent(#[trigger] final(m).imports@[j]),
        r is Ok == import_section(s@).1,
        *final(m) == (WasmModule {
            imports: final(m).imports,
            initial_memory_pages: final(m).initial_memory_pages,
            memory_count: final(m).memory_count,
            ..*old(m)
        }),
        import_views(final(m).imports@) == import_views(old(m).imports@) + import_entry_views(
            import_section(s@).0,
        ),
        (final(m).initial_memory_pages, final(m).memory_count) == memory_after(
            old(m).initial_memory_pages,
            old(m).memory_count,
            import_section(s@).0,
        ),
{
    let _n = s.len();
    let (count, mut p) = read_u32(s, 0)?;
    let ghost total = import_section(s@);
    let ghost mut got: Seq<(Seq<char>, Seq<char>, u8, nat)> = Seq::empty();
    proof {
        lemma_add_empty(import_views(old(m).imports@));
        assert(import_entry_views(got) =~= Seq::<(Seq<char>, Seq<char>, u8)>::empty());
    }
    let mut k: u32 = 0;
    while k < count
        invariant
            p <= s@.len(),
            s@.len() <= usize::MAX,
            k <= count,
            total == import_section(s@),
            total.0 == got + imports_from(s@, p as int, k as nat, count as nat).0,
            total.1 == imports_from(s@, p as int, k as nat, count as nat).1,
            forall|j: int| 0 <= j < m.imports@.len() ==> import_consistent(#[trigger] m.imports@[j]),
            *m == (WasmModule {
                imports: m.imports,
                initial_memory_pages: m.initial_memory_pages,
                memory_count: m.memory_count,
                ..*old(m)
            }),
            import_views(m.imports@) == import_views(old(m).imports@) + import_entry_views(got),
            (m.initial_memory_pages, m.memory_count) == memory_after(
                old(m).initial_memory_pages,
                old(m).memory_count,
                got,
            ),
        decreases count - k,
    {
        proof {
            lemma_add_empty(got);
        }
        let ghost before = *m;
        let ghost entry = import_at(s@, p as int);
        p = decode_import(s, p, m)?;
        proof {
            let (module, field, kind, pages, q) = entry->Some_0;
            let x = (module, field, kind, pages);
            let rest = imports_from(s@, q, (k + 1) as nat, count as nat);
            lemma_push_concat(got, x, rest.0);
            assert(m.imports@ =~= before.imports@.push(m.imports@.last()));
            assert(import_views(m.imports@) =~= import_views(before.imports@).push(
                (module, field, kind),
            ));
            assert(import_entry_views(got.push(x)) =~= import_entry_views(got).push(
                (module, field, kind),
            ));
            lemma_push_concat(import_views(old(m).imports@), (module, field, kind), import_entry_views(got));
            assert(got.push(x).drop_last() =~= got);
            got = got.push(x);
        }
        k += 1;
    }
    proof {
        lemma_add_empty(got);
    }
    Ok(())
}

fn decode_function_types(s: &[u8], m: &mut WasmModule) -> (r: Result<(), DecodeError>)
    ensures
        r matches Err(e) ==> !(e is NotWasm),
        r is Ok == function_section(s@).1,
        *final(m) == (WasmModule { function_types: final(m).function_types, ..*old(m) }),
        final(m).function_types@ == old(m).function_types@ + function_section(s@).0,
{
    let _n = s.len();
    let (count, mut p) = read_u32(s, 0)?;
    let count = count as usize;
    proof {
        lemma_add_empty(old(m).function_types@);
    }
    if count > MAX_FUNCTIONS {
        return Err(DecodeError::TooManyFunctions(count));
    }
    let ghost total = function_section(s@);
    let ghost mut got: Seq<u32> = Seq::empty();
    let mut k: usize = 0;
    while k < count
        invariant
            p <= s@.len(),
            s@.len() <= usize::MAX,
            k <= count,
            total == function_section(s@),
            total.0 == got + u32s_from(s@, p as int, k as nat, count as nat).0,
            total.1 == u32s_from(s@, p as int, k as nat, count as nat).1,
            *m == (WasmModule { function_types: m.function_types, ..*old(m) }),
            m.function_types@ == old(m).function_types@ + got,
        decreases count - k,
    {
        proof {
            lemma_add_empty(got);
        }
        let (t, q) = read_u32(s, p)?;
        proof {
            let rest = u32s_from(s@, q as int, (k + 1) as nat, count as nat);
            lemma_push_concat(got, t, rest.0);
            lemma_push_concat(old(m).function_types@, t, got);
            got = got.push(t);
        }
        m.function_types.push(t);
        p = q;
        k += 1;
    }
    proof {
        lemma_add_empty(got);
    }
    Ok(())
}

fn decode_memories(s: &[u8], m: &mut WasmModule) -> (r: Result<(), DecodeError>)
    ensures
        r matches Err(e) ==> !(e is NotWasm),
        r is Ok == memory_section(s@).1,
        *final(m) == (WasmModule {
            initial_memory_pages: pages_after(old(m).initial_memory_pages, memory_section(s@).0),
            memory_count: if r is Ok {
                sat_add_u32(old(m).memory_count, leb_u32(s@, 0)->Some_0.0 as u32)
            } else {
                old(m).memory_count
            },
            ..*old(m)
        }),
{
    let _n = s.len();
    let (count, mut p) = read_u32(s, 0)?;
    let ghost total = memory_section(s@);
    let ghost mut got: Seq<nat> = Seq::empty();
    let mut k: u32 = 0;
    while k < count
        invariant
            p <= s@.len(),
            s@.len() <= usize::MAX,
            k <= count,
            total == memory_section(s@),
            leb_u32(s@, 0)->Some_0.0 == count as nat,
            total.0 == got + limits_from(s@, p as int, k as nat, count as nat).0,
            total.1 == limits_from(s@, p as int, k as nat, count as nat).1,
            *m == (WasmModule {
                initial_memory_pages: pages_after(old(m).initial_memory_pages, got),
                ..*old(m)
            }),
        decreases count - k,
    {
        proof {
            lemma_add_empty(got);
        }
        let (pages, q) = read_limits(s, p)?;
        proof {
            let rest = limits_from(s@, q as int, (k + 1) as nat, count as nat);
            lemma_push_concat(got, pages as nat, rest.0);
            assert(got.push(pages as nat).drop_last() =~= got);
            got = got.push(pages as nat);
        }
        m.initial_memory_pages = m.initial_memory_pages.saturating_add(pages);
        p = q;
        k += 1;
    }
    proof {
        lemma_add_empty(got);
    }
    m.memory_count = m.memory_count.saturating_add(count);
    Ok(())
}

fn decode_exports(s: &[u8], m: &mut WasmModule) -> (r: Result<(), DecodeError>)
    ensures
        r matches Err(e) ==> !(e is NotWasm),
        r is Ok == export_section(s@).1,
        *final(m) == (WasmModule { exports: final(m).exports, ..*old(m) }),
        export_views(final(m).exports@) == export_views(old(m).exports@) + export_section(s@).0,
{
    let _n = s.len();
    let (count, mut p) = read_u32(s, 0)?;
    let ghost total = export_section(s@);
    let ghost mut got: Seq<(Seq<char>, u8, u32)> = Seq::empty();
    proof {
        lemma_add_empty(export_views(old(m).exports@));
    }
    let mut k: u32 = 0;
    while k < count
        invariant
            p <= s@.len(),
            s@.len() <= usize::MAX,
            k <= count,
            total == export_section(s@),
            total.0 == got + exports_from(s@, p as int, k as nat, count as nat).0,
            total.1 == exports_from(s@, p as int, k as nat, count as nat).1,
            *m == (WasmModule { exports: m.exports, ..*old(m) }),
            export_views(m.exports@) == export_views(old(m).exports@) + got,
        decreases count - k,
    {
        proof {
            lemma_add_empty(got);
        }
        let (name, p1) = read_name(s, p)?;
        let kind = read_byte(s, p1)?;
        let (index, p2) = read_u32(s, p1 + 1)?;
        let ghost x = (name@, kind, index);
        let ghost before = m.exports@;
        m.exports.push(Export { name, kind, index });
        proof {
            let rest = exports_from(s@, p2 as int, (k + 1) as nat, count as nat);
            lemma_push_concat(got, x, rest.0);
            lemma_push_concat(export_views(old(m).exports@), x, got);
            assert(export_views(m.exports@) =~= export_views(before).push(x));
            got = got.push(x);
        }
        p = p2;
        k += 1;
    }
    proof {
        lemma_add_empty(got);
    }
    Ok(())
}

fn decode_code(s: &[u8], code_bodies: &mut Vec<Vec<u8>>) -> (r: Result<(), DecodeError>)
    requires
        old(code_bodies)@.len() <= MAX_FUNCTIONS,
        forall|k: int| 0 <= k < old(code_bodies)@.len() ==> (#[trigger] old(code_bodies)@[k])@.len() <= u32::MAX,
    ensures
        r matches Err(e) ==> !(e is NotWasm),
        r is Ok == code_section(s@, old(code_bodies)@.len()).1,
        body_views(final(code_bodies)@) == body_views(old(code_bodies)@) + code_section(
            s@,
            old(code_bodies)@.len(),
        ).0,
        final(code_bodies)@.len() <= MAX_FUNCTIONS,
        forall|k: int| 0 <= k < final(code_bodies)@.len() ==> (#[trigger] final(code_bodies)@[k])@.len() <= u32::MAX,
{
    let _n = s.len();
    let ghost have0 = code_bodies@.len();
    let (count, mut p) = read_u32(s, 0)?;
    let count = count as usize;
    proof {
        lemma_add_empty(body_views(old(code_bodies)@));
    }
    if count > MAX_FUNCTIONS {
        return Err(DecodeError::TooManyBodies(count));
    }
    let ghost total = code_section(s@, have0);
    let ghost mut got: Seq<Seq<u8>> = Seq::empty();
    let mut k: usize = 0;
    while k < count
        invariant
            p <= s@.len(),
            s@.len() <= usize::MAX,
            k <= count,
            have0 == old(code_bodies)@.len(),
            total == code_section(s@, have0),
            total.0 == got + bodies_from(s@, p as int, k as nat, count as nat, code_bodies@.len()).0,
            total.1 == bodies_from(s@, p as int, k as nat, count as nat, code_bodies@.len()).1,
            code_bodies@.len() == have0 + got.len(),
            body_views(code_bodies@) == body_views(old(code_bodies)@) + got,
            code_bodies@.len() <= MAX_FUNCTIONS,
            forall|j: int| 0 <= j < code_bodies@.len() ==> (#[trigger] code_bodies@[j])@.len() <= u32::MAX,
        decreases count - k,
    {
        proof {
            lemma_add_empty(got);
        }
        let (len, q) = read_u32(s, p)?;
        let end = skip(s, q, len as usize)?;
        if code_bodies.len() >= MAX_FUNCTIONS {
            return Err(DecodeError::TooManyBodies(code_bodies.len() + 1));
        }
        let body = copy_bytes(s, q, len as usize);
        let ghost x = body@;
        let ghost before = code_bodies@;
        code_bodies.push(body);
        proof {
            let rest = bodies_from(s@, end as int, (k + 1) as nat, count as nat, code_bodies@.len());
            lemma_push_concat(got, x, rest.0);
            lemma_push_concat(body_views(old(code_bodies)@), x, got);
            assert(body_views(code_bodies@) =~= body_views(before).push(x));
            got = got.push(x);
        }
        p = end;
        k += 1;
    }
    proof {
        lemma_add_empty(got);
    }
    Ok(())
}

/// Decodes the payload of one section with id `id` and `size` bytes.
fn decode_section(
    id: u8,
    s: &[u8],
    size: usize,
    m: &mut WasmModule,
    names: &mut BTreeMap<u32, String>,
    code_bodies: &mut Vec<Vec<u8>>,
) -> (r: Result<(), DecodeError>)
    requires
        decode_inv(*old(m), old(m).size_bytes, old(code_bodies)@),
    ensures
        r matches Err(e) ==> !(e is NotWasm),
        decode_inv(*final(m), old(m).size_bytes, final(code_bodies)@),
        section_applied(
            id,
            s@,
            size,
            *old(m),
            *final(m),
            name_map(old(names)@),
            name_map(final(names)@),
            body_views(old(code_bodies)@),
            body_views(final(code_bodies)@),
            r is Ok,
        ),
{
    let _n = s.len();
    if id == 0 {
        let (name, p) = match read_name(s, 0) {
            Ok(x) => x,
            Err(_) => (String::new(), s.len()),
        };
        proof {
            assert(name@ == custom_name(s@).0 && p == custom_name(s@).1);
        }
        let is_name_section = crate::text::str_eq(name.as_str(), "name");
        add_custom(&mut m.custom_sections, name, size);
        if is_name_section && p <= s.len() {
            let rest = copy_bytes(s, p, s.len() - p);
            let _ = parse_name_section(&rest, names);
        }
        Ok(())
    } else if id == 1 {
        decode_types(s, m)
    } else if id == 2 {
        decode_imports(s, m)
    } else if id == 3 {
        decode_function_types(s, m)
    } else if id == 4 {
        let (n, _) = read_u32(s, 0)?;
        m.table_count = m.table_count.saturating_add(n);
        Ok(())
    } else if id == 5 {
        decode_memories(s, m)
    } else if id == 6 {
        let (n, _) = read_u32(s, 0)?;
        m.global_count = n;
        Ok(())
    } else if id == 7 {
        decode_exports(s, m)
    } else if id == 8 {
        m.has_start = true;
        Ok(())
    } else if id == 9 {
        let (n, _) = read_u32(s, 0)?;
        m.element_segment_count = n;
        Ok(())
    } else if id == 10 {
        let r = decode_code(s, code_bodies);
        proof {
            assert(body_views(old(code_bodies)@).len() == old(code_bodies)@.len());
        }
        r
    } else if id == 11 {
        let (n, _) = read_u32(s, 0)?;
        m.data_segment_count = n;
        m.data_bytes = size;
        Ok(())
    } else {
        Ok(())
    }
}

/// The name of the last function export of function `index` in `ex`.
pub open spec fn export_name_of(ex: Seq<Export>, index: u32) -> Option<Seq<char>>
    decreases ex.len(),
{
    if ex.len() == 0 {
        None
    } else if ex.last().kind == 0 && ex.last().index == index {
        Some(ex.last().name@)
    } else {
        export_name_of(ex.drop_last(), index)
    }
}

/// The name of function `index`: the last function export naming it, else
/// its entry in the `name` section.
pub open spec fn function_name_spec(ex: Seq<Export>, names: Map<u32, String>, index: u32) -> Option<
    Seq<char>,
> {
    match export_name_of(ex, index) {
        Some(n) => Some(n),
        None => if names.contains_key(index) {
            Some(names[index]@)
        } else {
            None
        },
    }
}

/// The text of an optional string.
pub open spec fn opt_text(o: Option<String>) -> Option<Seq<char>> {
    match o {
        Some(s) => Some(s@),
        None => None,
    }
}

/// Name of function `index`: the last function export naming it, else the
/// `name` section entry.
fn function_name(m: &WasmModule, names: &BTreeMap<u32, String>, index: u32) -> (r: Option<String>)
    ensures
        opt_text(r) == function_name_spec(m.exports@, names@, index),
{
    let mut found: Option<String> = None;
    let mut i: usize = 0;
    while i < m.exports.len()
        invariant
            i <= m.exports@.len(),
            opt_text(found) == export_name_of(m.exports@.take(i as int), index),
        decreases m.exports@.len() - i,
    {
        assert(m.exports@.take(i + 1).drop_last() =~= m.exports@.take(i as int));
        if m.exports[i].kind == 0 && m.exports[i].index == index {
            found = Some(m.exports[i].name.clone());
        }
        i += 1;
    }
    assert(m.exports@.take(i as int) =~= m.exports@);
    match found {
        Some(n) => Some(n),
        None => match names.get(&index) {
            Some(n) => Some(n.clone()),
            None => None,
        },
    }
}

/// What the sections read so far hold, as plain values.
pub struct DecodedState {
    pub types: Seq<(u32, u32)>,
    pub imports: Seq<(Seq<char>, Seq<char>, u8)>,
    pub function_types: Seq<u32>,
    pub exports: Seq<(Seq<char>, u8, u32)>,
    pub global_count: u32,
    pub table_count: u32,
    pub memory_count: u32,
    pub initial_memory_pages: u64,
    pub data_segment_count: u32,
    pub data_bytes: usize,
    pub element_segment_count: u32,
    pub has_start: bool,
    pub custom_sections: Seq<(Seq<char>, usize)>,
    pub names: Map<u32, Seq<char>>,
    pub bodies: Seq<Seq<u8>>,
}

/// A module under construction, its name map and its code bodies as plain
/// values.
pub open spec fn state_of(m: WasmModule, names: Map<u32, Seq<char>>, bodies: Seq<Seq<u8>>) -> DecodedState {
    DecodedState {
        types: m.types@,
        imports: import_views(m.imports@),
        function_types: m.function_types@,
        exports: export_views(m.exports@),
        global_count: m.global_count,
        table_count: m.table_count,
        memory_count: m.memory_count,
        initial_memory_pages: m.initial_memory_pages,
        data_segment_count: m.data_segment_count,
        data_bytes: m.data_bytes,
        element_segment_count: m.element_segment_count,
        has_start: m.has_start,
        custom_sections: custom_views(m.custom_sections@),
        names,
        bodies,
    }
}

/// Nothing read yet.
pub open spec fn empty_state() -> DecodedState {
    DecodedState {
        types: Seq::empty(),
        imports: Seq::empty(),
        function_types: Seq::empty(),
        exports: Seq::empty(),
        global_count: 0,
        table_count: 0,
        memory_count: 0,
        initial_memory_pages: 0,
        data_segment_count: 0,
        data_bytes: 0,
        element_segment_count: 0,
        has_start: false,
        custom_sections: Seq::empty(),
        names: Map::empty(),
        bodies: Seq::empty(),
    }
}

/// The state after section `id` with payload `s` of `size` bytes, or `None`
/// when the section does not read.
pub open spec fn apply_section(st: DecodedState, id: u8, s: Seq<u8>, size: usize) -> Option<DecodedState> {
    if id == 0 {
        let (name, p) = custom_name(s);
        Some(
            DecodedState {
                custom_sections: added_custom(st.custom_sections, name, size),
                names: if name == "name"@ && p <= s.len() {
                    with_names(st.names, name_section_from(s.subrange(p, s.len() as int), 0).0)
                } else {
                    st.names
                },
                ..st
            },
        )
    } else if id == 1 {
        if type_section(s).1 {
            Some(DecodedState { types: st.types + type_section(s).0, ..st })
        } else {
            None
        }
    } else if id == 2 {
        let e = import_section(s);
        if e.1 {
            let mm = memory_after(st.initial_memory_pages, st.memory_count, e.0);
            Some(
                DecodedState {
                    imports: st.imports + import_entry_views(e.0),
                    initial_memory_pages: mm.0,
                    memory_count: mm.1,
                    ..st
                },
            )
        } else {
            None
        }
    } else if id == 3 {
        if function_section(s).1 {
            Some(DecodedState { function_types: st.function_types + function_section(s).0, ..st })
        } else {
            None
        }
    } else if id == 4 || id == 6 || id == 9 || id == 11 {
        match leb_u32(s, 0) {
            None => None,
            Some((n, _)) => Some(
                if id == 4 {
                    DecodedState { table_count: sat_add_u32(st.table_count, n as u32), ..st }
                } else if id == 6 {
                    DecodedState { global_count: n as u32, ..st }
                } else if id == 9 {
                    DecodedState { element_segment_count: n as u32, ..st }
                } else {
                    DecodedState { data_segment_count: n as u32, data_bytes: size, ..st }
                },
            ),
        }
    } else if id == 5 {
        if memory_section(s).1 {
            Some(
                DecodedState {
                    initial_memory_pages: pages_after(st.initial_memory_pages, memory_section(s).0),
                    memory_count: sat_add_u32(st.memory_count, leb_u32(s, 0)->Some_0.0 as u32),
                    ..st
                },
            )
        } else {
            None
        }
    } else if id == 7 {
        if export_section(s).1 {
            Some(DecodedState { exports: st.exports + export_section(s).0, ..st })
        } else {
            None
        }
    } else if id == 8 {
        Some(DecodedState { has_start: true, ..st })
    } else if id == 10 {
        let c = code_section(s, st.bodies.len());
        if c.1 {
            Some(DecodedState { bodies: st.bodies + c.0, ..st })
        } else {
            None
        }
    } else {
        Some(st)
    }
}

proof fn lemma_section_applied(
    id: u8,
    s: Seq<u8>,
    size: usize,
    m0: WasmModule,
    m1: WasmModule,
    n0: Map<u32, Seq<char>>,
    n1: Map<u32, Seq<char>>,
    b0: Seq<Seq<u8>>,
    b1: Seq<Seq<u8>>,
    ok: bool,
)
    requires
        section_applied(id, s, size, m0, m1, n0, n1, b0, b1, ok),
    ensures
        ok == apply_section(state_of(m0, n0, b0), id, s, size) is Some,
        ok ==> state_of(m1, n1, b1) == apply_section(state_of(m0, n0, b0), id, s, size)->Some_0,
{
}

/// The state after the sections of `r` from `pos` on, starting from `st`, or
/// `None` when one of them does not read.
pub open spec fn sections_from(r: Seq<u8>, pos: int, st: DecodedState) -> Option<DecodedState>
    decreases r.len() - pos,
{
    if pos < 0 || pos >= r.len() {
        Some(st)
    } else {
        match leb_u32(r, pos + 1) {
            None => None,
            Some((size, p)) => match bytes_end(r, p, size as int) {
                None => None,
                Some(end) => match apply_section(st, r[pos], r.subrange(p, end), size as usize) {
                    None => None,
                    Some(next) => if end <= pos {
                        None
                    } else {
                        sections_from(r, end, next)
                    },
                },
            },
        }
    }
}

/// The number of function imports.
pub open spec fn func_import_count(v: Seq<(Seq<char>, Seq<char>, u8)>) -> nat
    decreases v.len(),
{
    if v.len() == 0 {
        0
    } else {
        func_import_count(v.drop_last()) + if v.last().2 == 0 {
            1nat
        } else {
            0nat
        }
    }
}

proof fn lemma_func_import_count(v: Seq<Import>)
    ensures
        func_import_count(import_views(v)) == func_imports(v).len(),
    decreases v.len(),
{
    if v.len() > 0 {
        lemma_func_import_count(v.drop_last());
        assert(import_views(v).drop_last() =~= import_views(v.drop_last()));
    }
}

/// The section contents of `bytes`, when it is a wasm module whose sections
/// all read.
pub open spec fn decoded_state(bytes: Seq<u8>) -> Option<DecodedState> {
    if !is_wasm_spec(bytes) {
        None
    } else {
        sections_from(bytes.subrange(8, bytes.len() as int), 0, empty_state())
    }
}

/// `bytes` decode: a wasm module whose sections all read, with at most
/// `u32::MAX` functions in all.
pub open spec fn decode_ok(bytes: Seq<u8>) -> bool {
    match decoded_state(bytes) {
        Some(st) => st.bodies.len() + cap_u32(func_import_count(st.imports)) <= u32::MAX,
        None => false,
    }
}

/// The name of the last function export of `index` among export views.
pub open spec fn exported_name(ex: Seq<(Seq<char>, u8, u32)>, index: u32) -> Option<Seq<char>>
    decreases ex.len(),
{
    if ex.len() == 0 {
        None
    } else if ex.last().1 == 0 && ex.last().2 == index {
        Some(ex.last().0)
    } else {
        exported_name(ex.drop_last(), index)
    }
}

proof fn lemma_exported_name(ex: Seq<Export>, index: u32)
    ensures
        export_name_of(ex, index) == exported_name(export_views(ex), index),
    decreases ex.len(),
{
    if ex.len() > 0 {
        lemma_exported_name(ex.drop_last(), index);
        assert(export_views(ex).drop_last() =~= export_views(ex.drop_last()));
    }
}

/// The name of function `index`: its last function export, else its entry
/// in the `name` section.
pub open spec fn state_function_name(st: DecodedState, index: u32) -> Option<Seq<char>> {
    match exported_name(st.exports, index) {
        Some(n) => Some(n),
        None => if st.names.contains_key(index) {
            Some(st.names[index])
        } else {
            None
        },
    }
}

/// Function `i` of a decoded module: its index follows the function imports,
/// it spans its code body, carries its name, and decodes exactly when the
/// body's instructions do, with their count.
pub open spec fn function_matches(f: FunctionBody, st: DecodedState, i: int) -> bool {
    let index = cap_u32(func_import_count(st.imports)) + i;
    &&& f.index == index
    &&& f.body_bytes == st.bodies[i].len()
    &&& opt_text(f.name) == state_function_name(st, index as u32)
    &&& (f.decode_error is None) == (body_instructions(st.bodies[i]) is Some)
    &&& f.decode_error is None ==> f.instruction_count == body_instructions(st.bodies[i])->Some_0
    &&& f.decode_error is None ==> f.float_ops == body_floats(st.bodies[i])
    &&& f.decode_error is None ==> string_views(f.rejected_features@) == flag_names(
        body_flags(st.bodies[i]),
    )
    &&& has_stats(f, body_stats(st.bodies[i], cap_u32(func_import_count(st.imports))))
}

/// A decoded module holds what its sections say: the types, imports,
/// function types, exports, counts, custom sections, and one function per
/// code body.
pub open spec fn module_matches(m: WasmModule, st: DecodedState) -> bool {
    &&& m.types@ == st.types
    &&& import_views(m.imports@) == st.imports
    &&& m.function_types@ == st.function_types
    &&& export_views(m.exports@) == st.exports
    &&& m.global_count == st.global_count
    &&& m.table_count == st.table_count
    &&& m.memory_count == st.memory_count
    &&& m.initial_memory_pages == st.initial_memory_pages
    &&& m.data_segment_count == st.data_segment_count
    &&& m.data_bytes == st.data_bytes
    &&& m.element_segment_count == st.element_segment_count
    &&& m.has_start == st.has_start
    &&& custom_views(m.custom_sections@) == st.custom_sections
    &&& m.functions@.len() == st.bodies.len()
    &&& forall|i: int| 0 <= i < m.functions@.len() ==> function_matches(#[trigger] m.functions@[i], st, i)
}

/// Decode a module. Structural errors in the section layout are returned as
/// errors; problems inside a single function body are recorded on that body
/// (`decode_error`) so one exotic function does not hide the rest.
pub fn decode(bytes: &[u8]) -> (r: Result<WasmModule, DecodeError>)
    ensures
        !is_wasm_spec(bytes@) ==> r == Err::<WasmModule, DecodeError>(DecodeError::NotWasm),
        r == Err::<WasmModule, DecodeError>(DecodeError::NotWasm) ==> !is_wasm_spec(bytes@),
        (r is Ok) == decode_ok(bytes@),
        match r {
            Ok(m) => module_consistent(m, bytes@.len()) && module_matches(
                m,
                decoded_state(bytes@)->Some_0,
            ) && m.size_bytes == bytes@.len(),
            Err(_) => true,
        },
{
    if !is_wasm(bytes) {
        return Err(DecodeError::NotWasm);
    }
    let mut m = WasmModule {
        size_bytes: bytes.len(),
        types: Vec::new(),
        imports: Vec::new(),
        function_types: Vec::new(),
        exports: Vec::new(),
        functions: Vec::new(),
        global_count: 0,
        table_count: 0,
        memory_count: 0,
        initial_memory_pages: 0,
        data_segment_count: 0,
        data_bytes: 0,
        element_segment_count: 0,
        has_start: false,
        custom_sections: Vec::new(),
    };
    let r = copy_bytes(bytes, 8, bytes.len() - 8);
    let len = r.len();
    let mut names: BTreeMap<u32, String> = BTreeMap::new();
    let mut code_bodies: Vec<Vec<u8>> = Vec::new();
    proof {
        assert(name_map(names@) =~= Map::<u32, Seq<char>>::empty());
        assert(m.types@ =~= Seq::<(u32, u32)>::empty());
        assert(import_views(m.imports@) =~= Seq::<(Seq<char>, Seq<char>, u8)>::empty());
        assert(m.function_types@ =~= Seq::<u32>::empty());
        assert(export_views(m.exports@) =~= Seq::<(Seq<char>, u8, u32)>::empty());
        assert(custom_views(m.custom_sections@) =~= Seq::<(Seq<char>, usize)>::empty());
        assert(body_views(code_bodies@) =~= Seq::<Seq<u8>>::empty());
        assert(state_of(m, name_map(names@), body_views(code_bodies@)) == empty_state());
    }
    let mut pos: usize = 0;
    while pos < len
        invariant
            len == r@.len(),
            r@ == bytes@.subrange(8, bytes@.len() as int),
            pos <= len,
            is_wasm_spec(bytes@),
            decode_inv(m, bytes@.len() as usize, code_bodies@),
            sections_from(r@, 0, empty_state()) == sections_from(
                r@,
                pos as int,
                state_of(m, name_map(names@), body_views(code_bodies@)),
            ),
        decreases len - pos,
    {
        let id = read_byte(&r, pos)?;
        let (size, p) = read_u32(&r, pos + 1)?;
        let size = size as usize;
        let end = skip(&r, p, size)?;
        let payload = copy_bytes(&r, p, size);
        let ghost m0 = m;
        let ghost n0 = name_map(names@);
        let ghost b0 = body_views(code_bodies@);
        let res = decode_section(id, &payload, size, &mut m, &mut names, &mut code_bodies);
        proof {
            lemma_section_applied(
                id,
                payload@,
                size,
                m0,
                m,
                n0,
                name_map(names@),
                b0,
                body_views(code_bodies@),
                res is Ok,
            );
        }
        match res {
            Ok(()) => {},
            Err(e) => {
                return Err(e);
            },
        }
        pos = end;
    }
    let ghost st = state_of(m, name_map(names@), body_views(code_bodies@));
    let imported = m.imported_function_count();
    proof {
        lemma_func_import_count(m.imports@);
        assert(body_views(code_bodies@).len() == code_bodies@.len());
    }
    if code_bodies.len() as u64 + imported as u64 > 0xffff_ffff {
        return Err(DecodeError::TooManyFunctions(code_bodies.len()));
    }
    let mut i: usize = 0;
    while i < code_bodies.len()
        invariant
            i <= code_bodies@.len(),
            code_bodies@.len() <= MAX_FUNCTIONS,
            code_bodies@.len() + imported <= u32::MAX,
            imported == cap_u32(func_imports(m.imports@).len()),
            imported == cap_u32(func_import_count(st.imports)),
            m.functions@.len() == i,
            m.size_bytes == bytes@.len(),
            st == state_of(m, st.names, body_views(code_bodies@)),
            st.names == name_map(names@),
            forall|j: int| 0 <= j < m.imports@.len() ==> import_consistent(#[trigger] m.imports@[j]),
            forall|k: int| 0 <= k < code_bodies@.len() ==> (#[trigger] code_bodies@[k])@.len() <= u32::MAX,
            forall|k: int|
                0 <= k < m.functions@.len() ==> {
                    &&& (#[trigger] m.functions@[k]).index == imported + k
                    &&& calls_consistent(m.functions@[k], imported)
                    &&& features_sorted(m.functions@[k].rejected_features@)
                    &&& function_matches(m.functions@[k], st, k)
                },
        decreases code_bodies@.len() - i,
    {
        let index = imported + i as u32;
        let body = &code_bodies[i];
        let mut f = walk_body(body.as_slice(), index, imported);
        f.name = function_name(&m, &names, index);
        proof {
            lemma_exported_name(m.exports@, index);
            assert(body_views(code_bodies@)[i as int] == code_bodies@[i as int]@);
            assert(function_matches(f, st, i as int));
        }
        m.functions.push(f);
        i += 1;
    }
    proof {
        assert(st == state_of(m, name_map(names@), body_views(code_bodies@)));
    }
    Ok(m)
}

} // verus!
