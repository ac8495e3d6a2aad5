//! Minimal module builder for tests, benches and fixtures. It emits only what
//! the analyzer needs (types, imports, functions, exports, start, code and
//! custom sections), so hand-assembled test contracts stay readable.

use vstd::prelude::*;
use crate::gas_profiler::wasm::{is_wasm_spec, leb_from, leb_u32};
use vstd::string::StringSliceAdditionalSpecFns;
use vstd::utf8::encode_utf8;

pub mod op;

verus! {

/// Unsigned LEB128 encoding of `v`.
pub open spec fn leb_encode(v: nat) -> Seq<u8>
    decreases v,
{
    if v < 128 {
        seq![v as u8]
    } else {
        seq![(v % 128 + 128) as u8] + leb_encode(v / 128)
    }
}

/// Appends the LEB128 encoding of `v`.
pub fn leb(v: u64, out: &mut Vec<u8>)
    ensures
        final(out)@ == old(out)@ + leb_encode(v as nat),
    decreases v,
{
    if v < 128 {
        out.push(v as u8);
        assert(final(out)@ =~= old(out)@ + leb_encode(v as nat)) by {
            assert(leb_encode(v as nat) =~= seq![v as u8]);
        }
    } else {
        let ghost before = out@;
        out.push((v % 128 + 128) as u8);
        leb(v / 128, out);
        assert(out@ =~= before + leb_encode(v as nat));
    }
}

/// Length of the encoding of `v`.
pub proof fn lemma_leb_encode_len(v: nat)
    ensures
        leb_encode(v).len() >= 1,
        v < 128 ==> leb_encode(v).len() == 1,
        v <= u32::MAX ==> leb_encode(v).len() <= 5,
    decreases v,
{
    if v >= 128 {
        lemma_leb_encode_len(v / 128);
        if v <= u32::MAX {
            if v / 128 >= 0x200_0000 {
                assert(v / 128 <= 0x1ff_ffff);
            }
            lemma_leb_encode_len_bound(v);
        }
    }
}

/// Encodings of values below `128^k` take at most `k` bytes.
proof fn lemma_leb_encode_len_bound(v: nat)
    requires
        128 <= v <= u32::MAX,
    ensures
        leb_encode(v).len() <= 5,
    decreases v,
{
    let w = v / 128;
    if w >= 128 {
        let x = w / 128;
        if x >= 128 {
            let y = x / 128;
            if y >= 128 {
                let z = y / 128;
                assert(z < 128);
                assert(leb_encode(z).len() == 1);
                assert(leb_encode(y).len() == 2);
            } else {
                assert(leb_encode(y).len() == 1);
            }
            assert(leb_encode(x).len() <= 3);
        } else {
            assert(leb_encode(x).len() == 1);
        }
        assert(leb_encode(w).len() <= 4);
    } else {
        assert(leb_encode(w).len() == 1);
    }
}

/// Decoding the bytes of an encoding, found at offset `pos + i`, gives back
/// the value and the encoding's length.
pub proof fn lemma_leb_decode_encode(s: Seq<u8>, pos: int, i: nat, v: nat)
    requires
        pos >= 0,
        i + leb_encode(v).len() <= 6,
        pos + i + leb_encode(v).len() <= s.len(),
        s.subrange(pos + i, pos + i + leb_encode(v).len()) == leb_encode(v),
    ensures
        leb_from(s, pos, i) == Some((v, leb_encode(v).len())),
    decreases v,
{
    lemma_leb_encode_len(v);
    let e = leb_encode(v);
    assert(s[pos + i] == s.subrange(pos + i, pos + i + e.len())[0]);
    if v >= 128 {
        let rest = leb_encode(v / 128);
        lemma_leb_encode_len(v / 128);
        assert(e =~= seq![(v % 128 + 128) as u8] + rest);
        assert(s.subrange(pos + i + 1, pos + i + 1 + rest.len()) =~= rest) by {
            assert forall|k: int| 0 <= k < rest.len() implies s.subrange(
                pos + i + 1,
                pos + i + 1 + rest.len(),
            )[k] == rest[k] by {
                assert(s.subrange(pos + i, pos + i + e.len())[k + 1] == e[k + 1]);
            }
        }
        lemma_leb_decode_encode(s, pos, i + 1, v / 128);
    }
}

/// LEB128 round trip: the decoder reads back every `u32` the builder writes.
pub proof fn law_leb_round_trip(v: u32)
    ensures
        leb_u32(leb_encode(v as nat), 0) == Some((v as nat, leb_encode(v as nat).len() as int)),
{
    lemma_leb_encode_len(v as nat);
    let e = leb_encode(v as nat);
    assert(e.subrange(0, e.len() as int) =~= e);
    lemma_leb_decode_encode(e, 0, 0, v as nat);
}

/// The encoding of a string's length followed by its UTF-8 bytes.
pub fn name(s: &str, out: &mut Vec<u8>)
    ensures
        final(out)@ == old(out)@ + leb_encode(s.spec_bytes().len()) + s.spec_bytes(),
{
    let bytes = s.as_bytes();
    leb(bytes.len() as u64, out);
    let ghost mid = out@;
    let mut i: usize = 0;
    while i < bytes.len()
        invariant
            i <= bytes@.len(),
            bytes@ == s.spec_bytes(),
            out@ == mid + bytes@.take(i as int),
        decreases bytes@.len() - i,
    {
        out.push(bytes[i]);
        i += 1;
        assert(out@ =~= mid + bytes@.take(i as int));
    }
    assert(bytes@.take(i as int) =~= bytes@);
}

/// Appends `payload` to `out`.
fn extend(out: &mut Vec<u8>, payload: &[u8])
    ensures
        final(out)@ == old(out)@ + payload@,
{
    let mut i: usize = 0;
    let ghost before = out@;
    while i < payload.len()
        invariant
            i <= payload@.len(),
            out@ == before + payload@.take(i as int),
        decreases payload@.len() - i,
    {
        out.push(payload[i]);
        i += 1;
        assert(out@ =~= before + payload@.take(i as int));
    }
    assert(payload@.take(i as int) =~= payload@);
}

/// A section: its id, the payload length and the payload.
pub fn section(id: u8, payload: Vec<u8>, out: &mut Vec<u8>)
    ensures
        final(out)@ == old(out)@ + seq![id] + leb_encode(payload@.len()) + payload@,
        final(out)@ == old(out)@ + section_bytes(id, payload@),
{
    let ghost before = out@;
    out.push(id);
    leb(payload.len() as u64, out);
    extend(out, &payload);
    assert(out@ =~= before + seq![id] + leb_encode(payload@.len()) + payload@);
    assert(out@ =~= before + section_bytes(id, payload@));
}

/// A function to be emitted: `export` name (optional) and raw body
/// instructions (without the trailing `end`, which is added).
pub struct Func {
    pub export: Option<String>,
    pub code: Vec<u8>,
}

/// Assembles a module from imports, functions, custom sections and an
/// optional start function.
pub struct ModuleBuilder {
    imports: Vec<(String, String)>,
    funcs: Vec<Func>,
    custom: Vec<(String, Vec<u8>)>,
    start: Option<u32>,
}

/// The 8-byte module header: magic number and version 1.
pub open spec fn wasm_header() -> Seq<u8> {
    seq![0x00u8, 0x61u8, 0x73u8, 0x6du8, 0x01u8, 0x00u8, 0x00u8, 0x00u8]
}

/// A name: the length of its UTF-8 bytes, then the bytes.
pub open spec fn name_bytes(s: Seq<char>) -> Seq<u8> {
    leb_encode(encode_utf8(s).len()) + encode_utf8(s)
}

/// A section: its id, the payload length and the payload.
pub open spec fn section_bytes(id: u8, payload: Seq<u8>) -> Seq<u8> {
    seq![id] + leb_encode(payload.len()) + payload
}

/// The import entries: module and field names, kind function, type 0.
pub open spec fn import_entries(im: Seq<(Seq<char>, Seq<char>)>) -> Seq<u8>
    decreases im.len(),
{
    if im.len() == 0 {
        Seq::empty()
    } else {
        import_entries(im.drop_last()) + name_bytes(im.last().0) + name_bytes(im.last().1) + seq![
            0x00u8,
            0x00u8,
        ]
    }
}

/// The export entries of the functions: each exported one under its name,
/// kind function, at its index after the `imported` imports.
pub open spec fn export_entries(fs: Seq<(Option<Seq<char>>, Seq<u8>)>, imported: nat) -> Seq<u8>
    decreases fs.len(),
{
    if fs.len() == 0 {
        Seq::empty()
    } else {
        export_entries(fs.drop_last(), imported) + match fs.last().0 {
            Some(e) => name_bytes(e) + seq![0x00u8] + leb_encode(
                ((imported + fs.len() - 1) % 0x1_0000_0000) as nat,
            ),
            None => Seq::empty(),
        }
    }
}

/// How many of the functions are exported.
pub open spec fn export_count(fs: Seq<(Option<Seq<char>>, Seq<u8>)>) -> nat
    decreases fs.len(),
{
    if fs.len() == 0 {
        0
    } else {
        export_count(fs.drop_last()) + if fs.last().0 is Some {
            1nat
        } else {
            0nat
        }
    }
}

/// A function body: no locals, the code, `end`.
pub open spec fn func_body_bytes(code: Seq<u8>) -> Seq<u8> {
    seq![0x00u8] + code + seq![0x0Bu8]
}

/// The code entries: each body after its length.
pub open spec fn code_entries(fs: Seq<(Option<Seq<char>>, Seq<u8>)>) -> Seq<u8>
    decreases fs.len(),
{
    if fs.len() == 0 {
        Seq::empty()
    } else {
        code_entries(fs.drop_last()) + leb_encode(func_body_bytes(fs.last().1).len()) + func_body_bytes(
            fs.last().1,
        )
    }
}

/// The custom sections, in order.
pub open spec fn custom_sections(cs: Seq<(Seq<char>, Seq<u8>)>) -> Seq<u8>
    decreases cs.len(),
{
    if cs.len() == 0 {
        Seq::empty()
    } else {
        custom_sections(cs.drop_last()) + section_bytes(0, name_bytes(cs.last().0) + cs.last().1)
    }
}

/// The module bytes for imports `im`, functions `fs`, custom sections `cs`
/// and start function `start`: the header; the type section (`() -> i64`
/// for imports, `() -> ()` for functions); the import section when there
/// are imports; the function section; the export section when a function is
/// exported; the start section when set; the code section; then the custom
/// sections.
pub open spec fn module_bytes(
    im: Seq<(Seq<char>, Seq<char>)>,
    fs: Seq<(Option<Seq<char>>, Seq<u8>)>,
    cs: Seq<(Seq<char>, Seq<u8>)>,
    start: Option<u32>,
) -> Seq<u8> {
    wasm_header() + section_bytes(1, seq![0x02u8, 0x60u8, 0x00u8, 0x01u8, 0x7eu8, 0x60u8, 0x00u8, 0x00u8])
        + (if im.len() > 0 {
        section_bytes(2, leb_encode(im.len()) + import_entries(im))
    } else {
        Seq::empty()
    }) + section_bytes(3, leb_encode(fs.len()) + Seq::new(fs.len(), |i: int| 0x01u8)) + (if export_count(fs)
        > 0 {
        section_bytes(7, leb_encode(export_count(fs)) + export_entries(fs, im.len()))
    } else {
        Seq::empty()
    }) + (match start {
        Some(s) => section_bytes(8, leb_encode(s as nat)),
        None => Seq::empty(),
    }) + section_bytes(10, leb_encode(fs.len()) + code_entries(fs)) + custom_sections(cs)
}

/// Pairs of strings as plain values.
pub open spec fn pair_views(v: Seq<(String, String)>) -> Seq<(Seq<char>, Seq<char>)> {
    v.map_values(|p: (String, String)| (p.0@, p.1@))
}

/// Functions as plain values.
pub open spec fn func_views(v: Seq<Func>) -> Seq<(Option<Seq<char>>, Seq<u8>)> {
    v.map_values(
        |f: Func|
            (
                match f.export {
                    Some(e) => Some(e@),
                    None => None,
                },
                f.code@,
            ),
    )
}

/// Named data as plain values.
pub open spec fn data_views(v: Seq<(String, Vec<u8>)>) -> Seq<(Seq<char>, Seq<u8>)> {
    v.map_values(|c: (String, Vec<u8>)| (c.0@, c.1@))
}

/// The payload of the import section.
fn import_payload(imports: &Vec<(String, String)>) -> (p: Vec<u8>)
    ensures
        p@ == leb_encode(imports@.len() as nat) + import_entries(pair_views(imports@)),
{
    let ghost im = pair_views(imports@);
    let mut p: Vec<u8> = Vec::new();
    leb(imports.len() as u64, &mut p);
    let mut i: usize = 0;
    assert(im.take(0) =~= Seq::<(Seq<char>, Seq<char>)>::empty());
    while i < imports.len()
        invariant
            i <= imports@.len(),
            im == pair_views(imports@),
            im.len() == imports@.len(),
            p@ == leb_encode(im.len()) + import_entries(im.take(i as int)),
        decreases imports@.len() - i,
    {
        name(imports[i].0.as_str(), &mut p);
        name(imports[i].1.as_str(), &mut p);
        p.push(0x00);
        p.push(0x00);
        proof {
            assert(im[i as int] == (imports@[i as int].0@, imports@[i as int].1@));
            assert(im.take(i + 1).drop_last() =~= im.take(i as int));
            assert(p@ =~= leb_encode(im.len()) + import_entries(im.take(i + 1)));
        }
        i += 1;
    }
    assert(im.take(i as int) =~= im);
    p
}

/// The payload of the function section: every function has type 1.
fn function_payload(n: usize) -> (p: Vec<u8>)
    ensures
        p@ == leb_encode(n as nat) + Seq::new(n as nat, |k: int| 0x01u8),
{
    let mut p: Vec<u8> = Vec::new();
    leb(n as u64, &mut p);
    let mut i: usize = 0;
    while i < n
        invariant
            i <= n,
            p@ == leb_encode(n as nat) + Seq::new(i as nat, |k: int| 0x01u8),
        decreases n - i,
    {
        p.push(0x01);
        i += 1;
        assert(p@ =~= leb_encode(n as nat) + Seq::new(i as nat, |k: int| 0x01u8));
    }
    p
}

/// The export entries of `funcs` after `imported` imports, and their number.
fn export_payload(funcs: &Vec<Func>, imported: usize) -> (r: (Vec<u8>, u64))
    ensures
        r.0@ == export_entries(func_views(funcs@), imported as nat),
        r.1 == export_count(func_views(funcs@)),
{
    let ghost fs = func_views(funcs@);
    let base: u64 = (imported as u64) % 0x1_0000_0000;
    let mut count: u64 = 0;
    let mut entries: Vec<u8> = Vec::new();
    let mut i: usize = 0;
    assert(fs.take(0) =~= Seq::<(Option<Seq<char>>, Seq<u8>)>::empty());
    while i < funcs.len()
        invariant
            i <= funcs@.len(),
            fs == func_views(funcs@),
            fs.len() == funcs@.len(),
            base == (imported as int) % 0x1_0000_0000,
            count <= i,
            count == export_count(fs.take(i as int)),
            entries@ == export_entries(fs.take(i as int), imported as nat),
        decreases funcs@.len() - i,
    {
        let ghost t = fs.take(i + 1);
        proof {
            assert(t.drop_last() =~= fs.take(i as int));
            assert(t.last() == fs[i as int]);
        }
        match &funcs[i].export {
            Some(e) => {
                name(e.as_str(), &mut entries);
                entries.push(0x00);
                let idx: u64 = (base + (i as u64) % 0x1_0000_0000) % 0x1_0000_0000;
                proof {
                    vstd::arithmetic::div_mod::lemma_add_mod_noop(imported as int, i as int, 0x1_0000_0000);
                    assert(idx == (imported + t.len() - 1) % 0x1_0000_0000);
                }
                leb(idx, &mut entries);
                count += 1;
                assert(entries@ =~= export_entries(t, imported as nat));
            },
            None => {
                assert(entries@ =~= export_entries(t, imported as nat));
            },
        }
        i += 1;
    }
    assert(fs.take(i as int) =~= fs);
    (entries, count)
}

/// The payload of the code section.
fn code_payload(funcs: &Vec<Func>) -> (p: Vec<u8>)
    ensures
        p@ == leb_encode(funcs@.len() as nat) + code_entries(func_views(funcs@)),
{
    let ghost fs = func_views(funcs@);
    let mut p: Vec<u8> = Vec::new();
    leb(funcs.len() as u64, &mut p);
    let mut i: usize = 0;
    assert(fs.take(0) =~= Seq::<(Option<Seq<char>>, Seq<u8>)>::empty());
    while i < funcs.len()
        invariant
            i <= funcs@.len(),
            fs == func_views(funcs@),
            fs.len() == funcs@.len(),
            p@ == leb_encode(fs.len()) + code_entries(fs.take(i as int)),
        decreases funcs@.len() - i,
    {
        let mut body: Vec<u8> = vec![0x00];
        extend(&mut body, &funcs[i].code);
        body.push(0x0B);
        proof {
            assert(fs[i as int].1 == funcs@[i as int].code@);
            assert(body@ =~= func_body_bytes(fs[i as int].1));
            assert(fs.take(i + 1).drop_last() =~= fs.take(i as int));
        }
        leb(body.len() as u64, &mut p);
        extend(&mut p, &body);
        assert(p@ =~= leb_encode(fs.len()) + code_entries(fs.take(i + 1)));
        i += 1;
    }
    assert(fs.take(i as int) =~= fs);
    p
}

/// Appends the custom sections.
fn append_custom(custom: &Vec<(String, Vec<u8>)>, out: &mut Vec<u8>)
    ensures
        final(out)@ == old(out)@ + custom_sections(data_views(custom@)),
{
    let ghost cs = data_views(custom@);
    let ghost before = out@;
    let mut i: usize = 0;
    assert(cs.take(0) =~= Seq::<(Seq<char>, Seq<u8>)>::empty());
    assert(out@ =~= before + custom_sections(cs.take(0)));
    while i < custom.len()
        invariant
            i <= custom@.len(),
            cs == data_views(custom@),
            cs.len() == custom@.len(),
            out@ == before + custom_sections(cs.take(i as int)),
        decreases custom@.len() - i,
    {
        let mut p: Vec<u8> = Vec::new();
        name(custom[i].0.as_str(), &mut p);
        extend(&mut p, &custom[i].1);
        proof {
            assert(cs[i as int] == (custom@[i as int].0@, custom@[i as int].1@));
            assert(cs.take(i + 1).drop_last() =~= cs.take(i as int));
        }
        section(0, p, out);
        assert(out@ =~= before + custom_sections(cs.take(i + 1)));
        i += 1;
    }
    assert(cs.take(i as int) =~= cs);
}

impl ModuleBuilder {
    /// The imports added so far, as (module, field) pairs.
    pub closed spec fn imports_view(&self) -> Seq<(Seq<char>, Seq<char>)> {
        pair_views(self.imports@)
    }

    /// The functions added so far, as (export name, body code) pairs.
    pub closed spec fn funcs_view(&self) -> Seq<(Option<Seq<char>>, Seq<u8>)> {
        func_views(self.funcs@)
    }

    /// The custom sections added so far, as (name, data) pairs.
    pub closed spec fn custom_view(&self) -> Seq<(Seq<char>, Seq<u8>)> {
        data_views(self.custom@)
    }

    /// The start function, if one was set.
    pub closed spec fn start_view(&self) -> Option<u32> {
        self.start
    }

    pub fn new() -> (r: Self)
        ensures
            r.imports_view() == Seq::<(Seq<char>, Seq<char>)>::empty(),
            r.funcs_view() == Seq::<(Option<Seq<char>>, Seq<u8>)>::empty(),
            r.custom_view() == Seq::<(Seq<char>, Seq<u8>)>::empty(),
            r.start_view() is None,
    {
        let r = ModuleBuilder { imports: Vec::new(), funcs: Vec::new(), custom: Vec::new(), start: None };
        assert(r.imports_view() =~= Seq::<(Seq<char>, Seq<char>)>::empty());
        assert(r.funcs_view() =~= Seq::<(Option<Seq<char>>, Seq<u8>)>::empty());
        assert(r.custom_view() =~= Seq::<(Seq<char>, Seq<u8>)>::empty());
        r
    }

    /// Imports a host function (type `() -> i64`); imports take the low
    /// function indices in the order they are added.
    pub fn import(self, module: &str, field: &str) -> (r: Self)
        ensures
            r.imports_view() == self.imports_view().push((module@, field@)),
            r.funcs_view() == self.funcs_view(),
            r.custom_view() == self.custom_view(),
            r.start_view() == self.start_view(),
    {
        let mut s = self;
        s.imports.push((crate::text::to_owned_string(module), crate::text::to_owned_string(field)));
        assert(s.imports_view() =~= self.imports_view().push((module@, field@)));
        s
    }

    /// Adds a function with an optional export name.
    pub fn func(self, export: Option<&str>, code: Vec<u8>) -> (r: Self)
        ensures
            r.funcs_view() == self.funcs_view().push(
                (
                    match export {
                        Some(e) => Some(e@),
                        None => None,
                    },
                    code@,
                ),
            ),
            r.imports_view() == self.imports_view(),
            r.custom_view() == self.custom_view(),
            r.start_view() == self.start_view(),
    {
        let mut s = self;
        let export_name = match export {
            Some(e) => Some(crate::text::to_owned_string(e)),
            None => None,
        };
        let ghost code_view = code@;
        s.funcs.push(Func { export: export_name, code });
        assert(s.funcs_view() =~= self.funcs_view().push(
            (
                match export {
                    Some(e) => Some(e@),
                    None => None,
                },
                code_view,
            ),
        ));
        s
    }

    /// Adds a custom section.
    pub fn custom(self, name: &str, data: Vec<u8>) -> (r: Self)
        ensures
            r.custom_view() == self.custom_view().push((name@, data@)),
            r.imports_view() == self.imports_view(),
            r.funcs_view() == self.funcs_view(),
            r.start_view() == self.start_view(),
    {
        let mut s = self;
        let ghost data_view = data@;
        s.custom.push((crate::text::to_owned_string(name), data));
        assert(s.custom_view() =~= self.custom_view().push((name@, data_view)));
        s
    }

    /// Sets the start function.
    pub fn start(self, func: u32) -> (r: Self)
        ensures
            r.start_view() == Some(func),
            r.imports_view() == self.imports_view(),
            r.funcs_view() == self.funcs_view(),
            r.custom_view() == self.custom_view(),
    {
        let mut s = self;
        s.start = Some(func);
        s
    }

    /// The module bytes.
    pub fn build(self) -> (out: Vec<u8>)
        ensures
            out@ == module_bytes(self.imports_view(), self.funcs_view(), self.custom_view(), self.start_view()),
            out@.take(8) == wasm_header(),
            is_wasm_spec(out@),
    {
        let ghost im = self.imports_view();
        let ghost fs = self.funcs_view();
        let mut out: Vec<u8> = vec![0x00, 0x61, 0x73, 0x6d, 0x01, 0x00, 0x00, 0x00];
        assert(out@ =~= wasm_header());
        // type 0: () -> i64 (imports); type 1: () -> () (functions)
        let types: Vec<u8> = vec![0x02, 0x60, 0x00, 0x01, 0x7e, 0x60, 0x00, 0x00];
        assert(types@ =~= seq![0x02u8, 0x60u8, 0x00u8, 0x01u8, 0x7eu8, 0x60u8, 0x00u8, 0x00u8]);
        section(1, types, &mut out);
        let ghost a1 = out@;
        if self.imports.len() > 0 {
            section(2, import_payload(&self.imports), &mut out);
        } else {
            assert(out@ =~= a1 + Seq::<u8>::empty());
        }
        section(3, function_payload(self.funcs.len()), &mut out);
        let ghost a3 = out@;
        let (entries, count) = export_payload(&self.funcs, self.imports.len());
        if count > 0 {
            let mut p: Vec<u8> = Vec::new();
            leb(count, &mut p);
            extend(&mut p, &entries);
            section(7, p, &mut out);
        } else {
            assert(out@ =~= a3 + Seq::<u8>::empty());
        }
        let ghost a4 = out@;
        match self.start {
            Some(s) => {
                let mut p: Vec<u8> = Vec::new();
                leb(s as u64, &mut p);
                section(8, p, &mut out);
            },
            None => {
                assert(out@ =~= a4 + Seq::<u8>::empty());
            },
        }
        section(10, code_payload(&self.funcs), &mut out);
        append_custom(&self.custom, &mut out);
        assert(out@.take(8) =~= wasm_header()) by {
            assert(out@.take(8) =~= a1.take(8));
        }
        out
    }
}

} // verus!
