//! The binary module format: a deterministic, big-endian, length-prefixed
//! encoding of a module, its verified writer and parser, and the proof that
//! parsing inverts writing.

use vstd::prelude::*;

use crate::instruction::Error;
use crate::module::{constant_wf_v, cview, module_wf_v, mview, resolves_to_string_v,
    struct_wf_v, sview, Constant, ConstantType, ConstantV, Function, FunctionV, Module, ModuleV,
    Struct, StructV};
use crate::number::{num_ok, num_valid};
use crate::strings::{utf8_check, utf8_ok};

verus! {

// ---------------------------------------------------------------------------
// The encoding
// ---------------------------------------------------------------------------

/// A 16-bit count or length, big endian.
pub open spec fn spec_be16(n: u16) -> Seq<u8> {
    seq![(n / 256) as u8, (n % 256) as u8]
}

/// The magic bytes `sprachli` that open every bytecode file.
pub open spec fn spec_magic() -> Seq<u8> {
    seq![115u8, 112u8, 114u8, 97u8, 99u8, 104u8, 108u8, 105u8]
}

/// One encoded constant pool entry: kind tag, then the kind's payload.
pub open spec fn spec_encode_constant(c: ConstantV) -> Seq<u8> {
    match c {
        ConstantV::Number(b) => seq![0u8] + spec_be16(b.len() as u16) + b,
        ConstantV::String(b) => seq![1u8] + spec_be16(b.len() as u16) + b,
        ConstantV::Function(f) => seq![2u8] + spec_be16(f.arity) + spec_be16(f.body.len() as u16)
            + f.body,
    }
}

pub open spec fn spec_encode_constants(l: Seq<ConstantV>) -> Seq<u8>
    decreases l.len(),
{
    if l.len() == 0 {
        Seq::empty()
    } else {
        spec_encode_constant(l[0]) + spec_encode_constants(l.drop_first())
    }
}

pub open spec fn spec_encode_global(p: (u16, u16)) -> Seq<u8> {
    spec_be16(p.0) + spec_be16(p.1)
}

pub open spec fn spec_encode_globals(l: Seq<(u16, u16)>) -> Seq<u8>
    decreases l.len(),
{
    if l.len() == 0 {
        Seq::empty()
    } else {
        spec_encode_global(l[0]) + spec_encode_globals(l.drop_first())
    }
}

pub open spec fn spec_encode_fields(l: Seq<u16>) -> Seq<u8>
    decreases l.len(),
{
    if l.len() == 0 {
        Seq::empty()
    } else {
        spec_be16(l[0]) + spec_encode_fields(l.drop_first())
    }
}

/// One encoded struct descriptor entry: name index, kind tag, payload.
pub open spec fn spec_encode_struct(e: (u16, StructV)) -> Seq<u8> {
    spec_be16(e.0) + match e.1 {
        StructV::Empty => seq![0u8],
        StructV::Positional(n) => seq![1u8] + spec_be16(n),
        StructV::Named(fields) => seq![2u8] + spec_be16(fields.len() as u16) + spec_encode_fields(
            fields,
        ),
    }
}

pub open spec fn spec_encode_structs(l: Seq<(u16, StructV)>) -> Seq<u8>
    decreases l.len(),
{
    if l.len() == 0 {
        Seq::empty()
    } else {
        spec_encode_struct(l[0]) + spec_encode_structs(l.drop_first())
    }
}

/// The whole encoded module: magic, format version 0, then the three
/// counted blocks.
pub open spec fn spec_encode_module(mv: ModuleV) -> Seq<u8> {
    spec_magic() + spec_be16(0) + spec_be16(mv.constants.len() as u16) + spec_encode_constants(
        mv.constants,
    ) + spec_be16(mv.globals.len() as u16) + spec_encode_globals(mv.globals) + spec_be16(
        mv.structs.len() as u16,
    ) + spec_encode_structs(mv.structs)
}

/// Every bytecode file opens with the eight magic bytes.
pub proof fn lemma_encode_starts_with_magic(mv: ModuleV)
    ensures
        spec_encode_module(mv).len() >= 8,
        spec_encode_module(mv).subrange(0, 8) =~= spec_magic(),
{
}

// ---------------------------------------------------------------------------
// Unfolding lemmas for the list encoders
// ---------------------------------------------------------------------------

pub proof fn lemma_encode_constants_push(l: Seq<ConstantV>, c: ConstantV)
    ensures
        spec_encode_constants(l.push(c)) == spec_encode_constants(l) + spec_encode_constant(c),
    decreases l.len(),
{
    if l.len() == 0 {
        assert(l.push(c).drop_first() =~= Seq::<ConstantV>::empty());
        assert(l.push(c)[0] == c);
        assert(spec_encode_constants(Seq::<ConstantV>::empty()) == Seq::<u8>::empty());
        assert(spec_encode_constants(l.push(c)) =~= spec_encode_constant(c) + Seq::<u8>::empty());
        assert(spec_encode_constant(c) + Seq::<u8>::empty() =~= spec_encode_constant(c));
        assert(spec_encode_constants(l) + spec_encode_constant(c) =~= spec_encode_constant(c));
    } else {
        assert(l.push(c).drop_first() =~= l.drop_first().push(c));
        lemma_encode_constants_push(l.drop_first(), c);
        assert(l.push(c)[0] == l[0]);
        assert(spec_encode_constants(l.push(c)) == spec_encode_constant(l[0]) + (
        spec_encode_constants(l.drop_first()) + spec_encode_constant(c)));
        assert(spec_encode_constant(l[0]) + (spec_encode_constants(l.drop_first())
            + spec_encode_constant(c)) =~= (spec_encode_constant(l[0]) + spec_encode_constants(
            l.drop_first(),
        )) + spec_encode_constant(c));
    }
}

pub proof fn lemma_encode_globals_push(l: Seq<(u16, u16)>, p: (u16, u16))
    ensures
        spec_encode_globals(l.push(p)) == spec_encode_globals(l) + spec_encode_global(p),
    decreases l.len(),
{
    if l.len() == 0 {
        assert(l.push(p).drop_first() =~= Seq::<(u16, u16)>::empty());
        assert(l.push(p)[0] == p);
        assert(spec_encode_globals(Seq::<(u16, u16)>::empty()) == Seq::<u8>::empty());
        assert(spec_encode_globals(l.push(p)) =~= spec_encode_global(p) + Seq::<u8>::empty());
        assert(spec_encode_global(p) + Seq::<u8>::empty() =~= spec_encode_global(p));
        assert(spec_encode_globals(l) + spec_encode_global(p) =~= spec_encode_global(p));
    } else {
        assert(l.push(p).drop_first() =~= l.drop_first().push(p));
        lemma_encode_globals_push(l.drop_first(), p);
        assert(l.push(p)[0] == l[0]);
        assert(spec_encode_global(l[0]) + (spec_encode_globals(l.drop_first()) + spec_encode_global(
            p,
        )) =~= (spec_encode_global(l[0]) + spec_encode_globals(l.drop_first()))
            + spec_encode_global(p));
    }
}

pub proof fn lemma_encode_fields_push(l: Seq<u16>, x: u16)
    ensures
        spec_encode_fields(l.push(x)) == spec_encode_fields(l) + spec_be16(x),
    decreases l.len(),
{
    if l.len() == 0 {
        assert(l.push(x).drop_first() =~= Seq::<u16>::empty());
        assert(l.push(x)[0] == x);
        assert(spec_encode_fields(Seq::<u16>::empty()) == Seq::<u8>::empty());
        assert(spec_encode_fields(l.push(x)) =~= spec_be16(x) + Seq::<u8>::empty());
        assert(spec_be16(x) + Seq::<u8>::empty() =~= spec_be16(x));
        assert(spec_encode_fields(l) + spec_be16(x) =~= spec_be16(x));
    } else {
        assert(l.push(x).drop_first() =~= l.drop_first().push(x));
        lemma_encode_fields_push(l.drop_first(), x);
        assert(l.push(x)[0] == l[0]);
        assert(spec_be16(l[0]) + (spec_encode_fields(l.drop_first()) + spec_be16(x)) =~= (spec_be16(
            l[0],
        ) + spec_encode_fields(l.drop_first())) + spec_be16(x));
    }
}

pub proof fn lemma_encode_structs_push(l: Seq<(u16, StructV)>, e: (u16, StructV))
    ensures
        spec_encode_structs(l.push(e)) == spec_encode_structs(l) + spec_encode_struct(e),
    decreases l.len(),
{
    if l.len() == 0 {
        assert(l.push(e).drop_first() =~= Seq::<(u16, StructV)>::empty());
        assert(l.push(e)[0] == e);
        assert(spec_encode_structs(Seq::<(u16, StructV)>::empty()) == Seq::<u8>::empty());
        assert(spec_encode_structs(l.push(e)) =~= spec_encode_struct(e) + Seq::<u8>::empty());
        assert(spec_encode_struct(e) + Seq::<u8>::empty() =~= spec_encode_struct(e));
        assert(spec_encode_structs(l) + spec_encode_struct(e) =~= spec_encode_struct(e));
    } else {
        assert(l.push(e).drop_first() =~= l.drop_first().push(e));
        lemma_encode_structs_push(l.drop_first(), e);
        assert(l.push(e)[0] == l[0]);
        assert(spec_encode_struct(l[0]) + (spec_encode_structs(l.drop_first()) + spec_encode_struct(
            e,
        )) =~= (spec_encode_struct(l[0]) + spec_encode_structs(l.drop_first()))
            + spec_encode_struct(e));
    }
}

// ---------------------------------------------------------------------------
// The writer
// ---------------------------------------------------------------------------

fn push_be16(out: &mut Vec<u8>, n: u16)
    ensures
        final(out)@ == old(out)@ + spec_be16(n),
{
    out.push((n / 256) as u8);
    out.push((n % 256) as u8);
    proof {
        assert(final(out)@ =~= old(out)@ + spec_be16(n));
    }
}

fn push_bytes(out: &mut Vec<u8>, b: &Vec<u8>)
    ensures
        final(out)@ == old(out)@ + b@,
{
    let n = b.len();
    let mut i: usize = 0;
    while i < n
        invariant
            0 <= i <= n,
            n == b@.len(),
            out@ == old(out)@ + b@.subrange(0, i as int),
        decreases n - i,
    {
        let ghost prev = out@;
        out.push(b[i]);
        i = i + 1;
        proof {
            assert(out@ =~= old(out)@ + b@.subrange(0, i as int));
        }
    }
    proof {
        assert(b@.subrange(0, n as int) =~= b@);
    }
}

fn write_constant(out: &mut Vec<u8>, c: &Constant)
    requires
        c.wf(),
    ensures
        final(out)@ == old(out)@ + spec_encode_constant(cview(*c)),
{
    match c {
        Constant::Number(b) => {
            out.push(ConstantType::Number.byte());
            push_be16(out, b.len() as u16);
            push_bytes(out, b);
            proof {
                assert(out@ =~= old(out)@ + spec_encode_constant(cview(*c)));
            }
        },
        Constant::String(b) => {
            out.push(ConstantType::String.byte());
            push_be16(out, b.len() as u16);
            push_bytes(out, b);
            proof {
                assert(out@ =~= old(out)@ + spec_encode_constant(cview(*c)));
            }
        },
        Constant::Function(f) => {
            out.push(ConstantType::Function.byte());
            push_be16(out, f.arity);
            push_be16(out, f.body.len() as u16);
            push_bytes(out, &f.body);
            proof {
                assert(out@ =~= old(out)@ + spec_encode_constant(cview(*c)));
            }
        },
    }
}

fn write_struct(out: &mut Vec<u8>, name: u16, s: &Struct)
    requires
        s matches Struct::Named(fields) ==> fields@.len() <= u16::MAX,
    ensures
        final(out)@ == old(out)@ + spec_encode_struct((name, sview(*s))),
{
    push_be16(out, name);
    out.push(s.type_byte());
    match s {
        Struct::Empty => {
            proof {
                assert(out@ =~= old(out)@ + spec_encode_struct((name, sview(*s))));
            }
        },
        Struct::Positional(n) => {
            push_be16(out, *n);
            proof {
                assert(out@ =~= old(out)@ + spec_encode_struct((name, sview(*s))));
            }
        },
        Struct::Named(fields) => {
            push_be16(out, fields.len() as u16);
            let n = fields.len();
            let mut i: usize = 0;
            while i < n
                invariant
                    0 <= i <= n,
                    n == fields@.len(),
                    out@ == old(out)@ + spec_be16(name) + seq![2u8] + spec_be16(n as u16)
                        + spec_encode_fields(fields@.subrange(0, i as int)),
                decreases n - i,
            {
                push_be16(out, fields[i]);
                i = i + 1;
                proof {
                    assert(fields@.subrange(0, i as int) =~= fields@.subrange(
                        0,
                        i as int - 1,
                    ).push(fields@[i - 1]));
                    lemma_encode_fields_push(fields@.subrange(0, i as int - 1), fields@[i - 1]);
                    assert(out@ =~= old(out)@ + spec_be16(name) + seq![2u8] + spec_be16(n as u16)
                        + spec_encode_fields(fields@.subrange(0, i as int)));
                }
            }
            proof {
                assert(fields@.subrange(0, n as int) =~= fields@);
                assert(out@ =~= old(out)@ + spec_encode_struct((name, sview(*s))));
            }
        },
    }
}

/// Serialize a module to its byte form. The result is exactly the
/// deterministic encoding of the module's contents, and it always begins
/// with the eight magic bytes `sprachli`.
pub fn write_bytecode(m: &Module) -> (r: Vec<u8>)
    requires
        m.wf(),
    ensures
        r@ == spec_encode_module(mview(*m)),
        r@.len() >= 8,
        r@.subrange(0, 8) == spec_magic(),
{
    let ghost mv = mview(*m);
    let mut out: Vec<u8> = Vec::new();
    out.push(115);
    out.push(112);
    out.push(114);
    out.push(97);
    out.push(99);
    out.push(104);
    out.push(108);
    out.push(105);
    push_be16(&mut out, 0);
    proof {
        assert(out@ =~= spec_magic() + spec_be16(0));
    }

    let nc = m.constants().len();
    push_be16(&mut out, nc as u16);
    let ghost after_ccount = out@;
    let mut i: usize = 0;
    while i < nc
        invariant
            0 <= i <= nc,
            nc == m.constants@.len(),
            m.wf(),
            after_ccount == spec_magic() + spec_be16(0) + spec_be16(nc as u16),
            out@ == after_ccount + spec_encode_constants(mv.constants.subrange(0, i as int)),
            mv == mview(*m),
        decreases nc - i,
    {
        proof {
            assert(mv.constants[i as int] == cview(m.constants@[i as int]));
            assert(constant_wf_v(mv.constants[i as int]));
        }
        write_constant(&mut out, &m.constants()[i]);
        i = i + 1;
        proof {
            assert(mv.constants[i - 1] == cview(m.constants@[i - 1]));
            assert(mv.constants.subrange(0, i as int) =~= mv.constants.subrange(
                0,
                i as int - 1,
            ).push(mv.constants[i - 1]));
            lemma_encode_constants_push(
                mv.constants.subrange(0, i as int - 1),
                mv.constants[i - 1],
            );
            assert(out@ =~= after_ccount + spec_encode_constants(
                mv.constants.subrange(0, i as int),
            ));
        }
    }
    proof {
        assert(mv.constants.subrange(0, nc as int) =~= mv.constants);
    }

    let ng = m.globals().len();
    push_be16(&mut out, ng as u16);
    let ghost after_gcount = out@;
    let mut i: usize = 0;
    while i < ng
        invariant
            0 <= i <= ng,
            ng == m.globals@.len(),
            after_gcount == spec_magic() + spec_be16(0) + spec_be16(nc as u16)
                + spec_encode_constants(mv.constants) + spec_be16(ng as u16),
            nc == m.constants@.len(),
            out@ == after_gcount + spec_encode_globals(mv.globals.subrange(0, i as int)),
            mv == mview(*m),
        decreases ng - i,
    {
        let (k, v) = m.globals()[i];
        push_be16(&mut out, k);
        push_be16(&mut out, v);
        i = i + 1;
        proof {
            assert(mv.globals.subrange(0, i as int) =~= mv.globals.subrange(0, i as int - 1).push(
                mv.globals[i - 1],
            ));
            lemma_encode_globals_push(mv.globals.subrange(0, i as int - 1), mv.globals[i - 1]);
            assert(out@ =~= after_gcount + spec_encode_globals(mv.globals.subrange(0, i as int)));
        }
    }
    proof {
        assert(mv.globals.subrange(0, ng as int) =~= mv.globals);
    }

    let ns = m.structs().len();
    push_be16(&mut out, ns as u16);
    let ghost after_scount = out@;
    let mut i: usize = 0;
    while i < ns
        invariant
            0 <= i <= ns,
            ns == m.structs@.len(),
            m.wf(),
            after_scount == spec_magic() + spec_be16(0) + spec_be16(nc as u16)
                + spec_encode_constants(mv.constants) + spec_be16(ng as u16) + spec_encode_globals(
                mv.globals,
            ) + spec_be16(ns as u16),
            nc == m.constants@.len(),
            ng == m.globals@.len(),
            out@ == after_scount + spec_encode_structs(mv.structs.subrange(0, i as int)),
            mv == mview(*m),
        decreases ns - i,
    {
        let name = m.structs()[i].0;
        proof {
            assert(mv.structs[i as int] == (m.structs@[i as int].0, sview(m.structs@[i as int].1)));
            assert(struct_wf_v(mv.constants, mv.structs[i as int].1));
            match m.structs@[i as int].1 {
                Struct::Named(fields) => {
                    assert(sview(m.structs@[i as int].1) == StructV::Named(fields@));
                },
                _ => {},
            }
        }
        write_struct(&mut out, name, &m.structs()[i].1);
        i = i + 1;
        proof {
            assert(mv.structs[i - 1] == (m.structs@[i - 1].0, sview(m.structs@[i - 1].1)));
            assert(mv.structs.subrange(0, i as int) =~= mv.structs.subrange(0, i as int - 1).push(
                mv.structs[i - 1],
            ));
            lemma_encode_structs_push(mv.structs.subrange(0, i as int - 1), mv.structs[i - 1]);
            assert(out@ =~= after_scount + spec_encode_structs(mv.structs.subrange(0, i as int)));
        }
    }
    proof {
        assert(mv.structs.subrange(0, ns as int) =~= mv.structs);
        assert(out@ =~= spec_encode_module(mv));
        lemma_encode_starts_with_magic(mv);
        assert(out@.subrange(0, 8) =~= spec_magic());
    }
    out
}


// ---------------------------------------------------------------------------
// The parser, at spec level
// ---------------------------------------------------------------------------

/// Read one byte at `pos`.
pub open spec fn spec_take_u8(b: Seq<u8>, pos: int) -> Result<(u8, int), Error> {
    if 0 <= pos && pos + 1 <= b.len() {
        Ok((b[pos], pos + 1))
    } else {
        Err(Error::UnexpectedEnd)
    }
}

/// Read a big-endian 16-bit count at `pos`.
pub open spec fn spec_take_be16(b: Seq<u8>, pos: int) -> Result<(u16, int), Error> {
    if 0 <= pos && pos + 2 <= b.len() {
        Ok((((b[pos] as int) * 256 + (b[pos + 1] as int)) as u16, pos + 2))
    } else {
        Err(Error::UnexpectedEnd)
    }
}

/// Read `n` raw bytes at `pos`.
pub open spec fn spec_take_bytes(b: Seq<u8>, pos: int, n: int) -> Result<(Seq<u8>, int), Error> {
    if 0 <= pos && 0 <= n && pos + n <= b.len() {
        Ok((b.subrange(pos, pos + n), pos + n))
    } else {
        Err(Error::UnexpectedEnd)
    }
}

/// Read the file header: the magic bytes, then the format version.
pub open spec fn spec_parse_header(b: Seq<u8>, pos: int) -> Result<(u16, int), Error> {
    if pos < 0 || pos + 8 > b.len() {
        Err(Error::UnexpectedEnd)
    } else if b.subrange(pos, pos + 8) != spec_magic() {
        Err(Error::InvalidMagic)
    } else {
        spec_take_be16(b, pos + 8)
    }
}

/// Read one constant pool entry at `pos`.
pub open spec fn spec_parse_constant(b: Seq<u8>, pos: int) -> Result<(ConstantV, int), Error> {
    match spec_take_u8(b, pos) {
        Err(e) => Err(e),
        Ok((kind, p1)) => if kind == 0 {
            match spec_take_be16(b, p1) {
                Err(e) => Err(e),
                Ok((len, p2)) => match spec_take_bytes(b, p2, len as int) {
                    Err(e) => Err(e),
                    Ok((bs, p3)) => if num_ok(bs) {
                        Ok((ConstantV::Number(bs), p3))
                    } else {
                        Err(Error::InvalidNumberConstant)
                    },
                },
            }
        } else if kind == 1 {
            match spec_take_be16(b, p1) {
                Err(e) => Err(e),
                Ok((len, p2)) => match spec_take_bytes(b, p2, len as int) {
                    Err(e) => Err(e),
                    Ok((bs, p3)) => if utf8_ok(bs) {
                        Ok((ConstantV::String(bs), p3))
                    } else {
                        Err(Error::InvalidStringConstant)
                    },
                },
            }
        } else if kind == 2 {
            match spec_take_be16(b, p1) {
                Err(e) => Err(e),
                Ok((arity, p2)) => match spec_take_be16(b, p2) {
                    Err(e) => Err(e),
                    Ok((len, p3)) => match spec_take_bytes(b, p3, len as int) {
                        Err(e) => Err(e),
                        Ok((bs, p4)) => Ok(
                            (ConstantV::Function(FunctionV { arity, body: bs }), p4),
                        ),
                    },
                },
            }
        } else {
            Err(Error::InvalidConstantKind)
        },
    }
}

/// Read `n` constant pool entries at `pos`.
pub open spec fn spec_parse_constants(b: Seq<u8>, pos: int, n: int) -> Result<
    (Seq<ConstantV>, int),
    Error,
>
    decreases n,
{
    if n <= 0 {
        Ok((Seq::empty(), pos))
    } else {
        match spec_parse_constant(b, pos) {
            Err(e) => Err(e),
            Ok((c, p)) => match spec_parse_constants(b, p, n - 1) {
                Err(e) => Err(e),
                Ok((rest, q)) => Ok((seq![c] + rest, q)),
            },
        }
    }
}

/// Whether constant `i` resolves to a string constant, as the parser
/// demands of every name index; the exact error otherwise.
pub open spec fn spec_check_name(constants: Seq<ConstantV>, i: int) -> Option<Error> {
    if !(0 <= i < constants.len()) {
        Option::Some(Error::InvalidConstantRef(i as usize, constants.len() as usize))
    } else if !(constants[i] is String) {
        Option::Some(Error::InvalidConstantRefType(i as usize))
    } else {
        Option::None
    }
}

/// Read one global binding (name index, value index) at `pos`.
pub open spec fn spec_parse_global(b: Seq<u8>, pos: int, constants: Seq<ConstantV>) -> Result<
    ((u16, u16), int),
    Error,
> {
    match spec_take_be16(b, pos) {
        Err(e) => Err(e),
        Ok((name, p1)) => match spec_take_be16(b, p1) {
            Err(e) => Err(e),
            Ok((value, p2)) => match spec_check_name(constants, name as int) {
                Option::Some(e) => Err(e),
                Option::None => if value as int >= constants.len() {
                    Err(Error::InvalidConstantRef(value as usize, constants.len() as usize))
                } else {
                    Ok(((name, value), p2))
                },
            },
        },
    }
}

/// Read `n` global bindings at `pos`.
pub open spec fn spec_parse_globals(
    b: Seq<u8>,
    pos: int,
    n: int,
    constants: Seq<ConstantV>,
) -> Result<(Seq<(u16, u16)>, int), Error>
    decreases n,
{
    if n <= 0 {
        Ok((Seq::empty(), pos))
    } else {
        match spec_parse_global(b, pos, constants) {
            Err(e) => Err(e),
            Ok((g, p)) => match spec_parse_globals(b, p, n - 1, constants) {
                Err(e) => Err(e),
                Ok((rest, q)) => Ok((seq![g] + rest, q)),
            },
        }
    }
}

/// Read `n` field-name indices at `pos`, each checked to resolve to a
/// string constant.
pub open spec fn spec_parse_fields(
    b: Seq<u8>,
    pos: int,
    n: int,
    constants: Seq<ConstantV>,
) -> Result<(Seq<u16>, int), Error>
    decreases n,
{
    if n <= 0 {
        Ok((Seq::empty(), pos))
    } else {
        match spec_take_be16(b, pos) {
            Err(e) => Err(e),
            Ok((f, p)) => match spec_check_name(constants, f as int) {
                Option::Some(e) => Err(e),
                Option::None => match spec_parse_fields(b, p, n - 1, constants) {
                    Err(e) => Err(e),
                    Ok((rest, q)) => Ok((seq![f] + rest, q)),
                },
            },
        }
    }
}

/// Read one struct descriptor entry at `pos`.
pub open spec fn spec_parse_struct(b: Seq<u8>, pos: int, constants: Seq<ConstantV>) -> Result<
    ((u16, StructV), int),
    Error,
> {
    match spec_take_be16(b, pos) {
        Err(e) => Err(e),
        Ok((name, p1)) => match spec_check_name(constants, name as int) {
            Option::Some(e) => Err(e),
            Option::None => match spec_take_u8(b, p1) {
                Err(e) => Err(e),
                Ok((kind, p2)) => if kind == 0 {
                    Ok(((name, StructV::Empty), p2))
                } else if kind == 1 {
                    match spec_take_be16(b, p2) {
                        Err(e) => Err(e),
                        Ok((count, p3)) => Ok(((name, StructV::Positional(count)), p3)),
                    }
                } else if kind == 2 {
                    match spec_take_be16(b, p2) {
                        Err(e) => Err(e),
                        Ok((count, p3)) => match spec_parse_fields(b, p3, count as int, constants) {
                            Err(e) => Err(e),
                            Ok((fields, p4)) => Ok(((name, StructV::Named(fields)), p4)),
                        },
                    }
                } else {
                    Err(Error::InvalidStructTypeKind)
                },
            },
        },
    }
}

/// Read `n` struct descriptor entries at `pos`.
pub open spec fn spec_parse_structs(
    b: Seq<u8>,
    pos: int,
    n: int,
    constants: Seq<ConstantV>,
) -> Result<(Seq<(u16, StructV)>, int), Error>
    decreases n,
{
    if n <= 0 {
        Ok((Seq::empty(), pos))
    } else {
        match spec_parse_struct(b, pos, constants) {
            Err(e) => Err(e),
            Ok((s, p)) => match spec_parse_structs(b, p, n - 1, constants) {
                Err(e) => Err(e),
                Ok((rest, q)) => Ok((seq![s] + rest, q)),
            },
        }
    }
}

/// Parse a whole module from the start of `b`: header, constants block,
/// globals block, structs block. Trailing bytes are ignored.
pub open spec fn spec_parse_module(b: Seq<u8>) -> Result<ModuleV, Error> {
    match spec_parse_header(b, 0) {
        Err(e) => Err(e),
        Ok((_version, p0)) => match spec_take_be16(b, p0) {
            Err(e) => Err(e),
            Ok((nc, p1)) => match spec_parse_constants(b, p1, nc as int) {
                Err(e) => Err(e),
                Ok((constants, p2)) => match spec_take_be16(b, p2) {
                    Err(e) => Err(e),
                    Ok((ng, p3)) => match spec_parse_globals(b, p3, ng as int, constants) {
                        Err(e) => Err(e),
                        Ok((globals, p4)) => match spec_take_be16(b, p4) {
                            Err(e) => Err(e),
                            Ok((ns, p5)) => match spec_parse_structs(
                                b,
                                p5,
                                ns as int,
                                constants,
                            ) {
                                Err(e) => Err(e),
                                Ok((structs, _p6)) => Ok(ModuleV { constants, globals, structs }),
                            },
                        },
                    },
                },
            },
        },
    }
}


// ---------------------------------------------------------------------------
// The parser, executable
// ---------------------------------------------------------------------------

/// The views of the constants held in a vector, in order.
pub open spec fn views_of(v: Seq<Constant>) -> Seq<ConstantV> {
    Seq::new(v.len(), |i: int| cview(v[i]))
}

/// The views of the struct entries held in a vector, in order.
pub open spec fn struct_views_of(v: Seq<(u16, Struct)>) -> Seq<(u16, StructV)> {
    Seq::new(v.len(), |i: int| (v[i].0, sview(v[i].1)))
}

fn take_u8(bytes: &Vec<u8>, pos: usize) -> (r: Result<(u8, usize), Error>)
    requires
        pos <= bytes@.len(),
    ensures
        match r {
            Ok((v, p)) => spec_take_u8(bytes@, pos as int) == Ok::<(u8, int), Error>((v, p as int))
                && p == pos + 1 && p <= bytes@.len(),
            Err(e) => spec_take_u8(bytes@, pos as int) == Err::<(u8, int), Error>(e),
        },
{
    let n = bytes.len();
    if pos < n {
        Ok((bytes[pos], pos + 1))
    } else {
        Err(Error::UnexpectedEnd)
    }
}

fn take_be16(bytes: &Vec<u8>, pos: usize) -> (r: Result<(u16, usize), Error>)
    requires
        pos <= bytes@.len(),
    ensures
        match r {
            Ok((v, p)) => spec_take_be16(bytes@, pos as int) == Ok::<(u16, int), Error>(
                (v, p as int),
            ) && p == pos + 2 && p <= bytes@.len(),
            Err(e) => spec_take_be16(bytes@, pos as int) == Err::<(u16, int), Error>(e),
        },
{
    let n = bytes.len();
    if n - pos >= 2 {
        let hi = bytes[pos];
        let lo = bytes[pos + 1];
        Ok(((hi as u16) * 256 + (lo as u16), pos + 2))
    } else {
        Err(Error::UnexpectedEnd)
    }
}

fn take_vec(bytes: &Vec<u8>, pos: usize, len: u16) -> (r: Result<(Vec<u8>, usize), Error>)
    requires
        pos <= bytes@.len(),
    ensures
        match r {
            Ok((v, p)) => spec_take_bytes(bytes@, pos as int, len as int) == Ok::<
                (Seq<u8>, int),
                Error,
            >((v@, p as int)) && p == pos + len && p <= bytes@.len() && v@.len() == len,
            Err(e) => spec_take_bytes(bytes@, pos as int, len as int) == Err::<
                (Seq<u8>, int),
                Error,
            >(e),
        },
{
    let n = bytes.len();
    if n - pos < len as usize {
        return Err(Error::UnexpectedEnd);
    }
    let mut v: Vec<u8> = Vec::new();
    let mut i: usize = 0;
    while i < len as usize
        invariant
            0 <= i <= len,
            pos + len <= n,
            n == bytes@.len(),
            v@ == bytes@.subrange(pos as int, pos + i),
        decreases len as int - i,
    {
        v.push(bytes[pos + i]);
        i = i + 1;
        proof {
            assert(v@ =~= bytes@.subrange(pos as int, pos + i));
        }
    }
    Ok((v, pos + len as usize))
}

/// The parser's check that a name index resolves to a string constant.
fn check_name(constants: &Vec<Constant>, i: u16) -> (r: Option<Error>)
    ensures
        r == spec_check_name(views_of(constants@), i as int),
        r is None ==> resolves_to_string_v(views_of(constants@), i as int),
{
    if (i as usize) < constants.len() {
        match &constants[i as usize] {
            Constant::String(_) => {
                proof {
                    assert(views_of(constants@)[i as int] == cview(constants@[i as int]));
                }
                None
            },
            _ => {
                proof {
                    assert(views_of(constants@)[i as int] == cview(constants@[i as int]));
                }
                Some(Error::InvalidConstantRefType(i as usize))
            },
        }
    } else {
        Some(Error::InvalidConstantRef(i as usize, constants.len()))
    }
}

fn parse_constant(bytes: &Vec<u8>, pos: usize) -> (r: Result<(Constant, usize), Error>)
    requires
        pos <= bytes@.len(),
    ensures
        match r {
            Ok((c, p)) => spec_parse_constant(bytes@, pos as int) == Ok::<(ConstantV, int), Error>(
                (cview(c), p as int),
            ) && p <= bytes@.len() && c.wf(),
            Err(e) => spec_parse_constant(bytes@, pos as int) == Err::<(ConstantV, int), Error>(e),
        },
{
    let (kind, p1) = match take_u8(bytes, pos) {
        Ok(x) => x,
        Err(e) => {
            return Err(e);
        },
    };
    if kind == 0 {
        let (len, p2) = match take_be16(bytes, p1) {
            Ok(x) => x,
            Err(e) => {
                return Err(e);
            },
        };
        let (v, p3) = match take_vec(bytes, p2, len) {
            Ok(x) => x,
            Err(e) => {
                return Err(e);
            },
        };
        if num_valid(&v) {
            Ok((Constant::Number(v), p3))
        } else {
            Err(Error::InvalidNumberConstant)
        }
    } else if kind == 1 {
        let (len, p2) = match take_be16(bytes, p1) {
            Ok(x) => x,
            Err(e) => {
                return Err(e);
            },
        };
        let (v, p3) = match take_vec(bytes, p2, len) {
            Ok(x) => x,
            Err(e) => {
                return Err(e);
            },
        };
        if utf8_check(&v) {
            Ok((Constant::String(v), p3))
        } else {
            Err(Error::InvalidStringConstant)
        }
    } else if kind == 2 {
        let (arity, p2) = match take_be16(bytes, p1) {
            Ok(x) => x,
            Err(e) => {
                return Err(e);
            },
        };
        let (len, p3) = match take_be16(bytes, p2) {
            Ok(x) => x,
            Err(e) => {
                return Err(e);
            },
        };
        let (v, p4) = match take_vec(bytes, p3, len) {
            Ok(x) => x,
            Err(e) => {
                return Err(e);
            },
        };
        Ok((Constant::Function(Function { arity, body: v }), p4))
    } else {
        Err(Error::InvalidConstantKind)
    }
}

fn parse_fields(bytes: &Vec<u8>, pos: usize, count: u16, constants: &Vec<Constant>) -> (r:
    Result<(Vec<u16>, usize), Error>)
    requires
        pos <= bytes@.len(),
    ensures
        match r {
            Ok((v, p)) => spec_parse_fields(bytes@, pos as int, count as int, views_of(constants@))
                == Ok::<(Seq<u16>, int), Error>((v@, p as int)) && p <= bytes@.len() && v@.len()
                == count && forall|j: int|
                0 <= j < v@.len() ==> resolves_to_string_v(
                    views_of(constants@),
                    (#[trigger] v@[j]) as int,
                ),
            Err(e) => spec_parse_fields(bytes@, pos as int, count as int, views_of(constants@))
                == Err::<(Seq<u16>, int), Error>(e),
        },
{
    let ghost cvs = views_of(constants@);
    let mut fields: Vec<u16> = Vec::new();
    let mut i: usize = 0;
    let mut p = pos;
    while i < count as usize
        invariant
            0 <= i <= count,
            pos <= bytes@.len(),
            p <= bytes@.len(),
            fields@.len() == i,
            cvs == views_of(constants@),
            forall|j: int| 0 <= j < i ==> resolves_to_string_v(cvs, (#[trigger] fields@[j]) as int),
            match spec_parse_fields(bytes@, p as int, count - i, cvs) {
                Ok((rest, q)) => spec_parse_fields(bytes@, pos as int, count as int, cvs) == Ok::<
                    (Seq<u16>, int),
                    Error,
                >((fields@ + rest, q)),
                Err(e) => spec_parse_fields(bytes@, pos as int, count as int, cvs) == Err::<
                    (Seq<u16>, int),
                    Error,
                >(e),
            },
        decreases count - i,
    {
        let (f, pn) = match take_be16(bytes, p) {
            Ok(x) => x,
            Err(e) => {
                return Err(e);
            },
        };
        match check_name(constants, f) {
            Some(e) => {
                return Err(e);
            },
            None => (),
        }
        let ghost prev = fields@;
        fields.push(f);
        i = i + 1;
        p = pn;
        proof {
            match spec_parse_fields(bytes@, p as int, count - i, cvs) {
                Ok((rest, q)) => {
                    assert(prev + (seq![f] + rest) =~= fields@ + rest);
                },
                Err(_) => {},
            }
        }
    }
    proof {
        assert(fields@ + Seq::<u16>::empty() =~= fields@);
    }
    Ok((fields, p))
}

fn parse_struct_entry(bytes: &Vec<u8>, pos: usize, constants: &Vec<Constant>) -> (r: Result<
    ((u16, Struct), usize),
    Error,
>)
    requires
        pos <= bytes@.len(),
    ensures
        match r {
            Ok(((name, s), p)) => spec_parse_struct(bytes@, pos as int, views_of(constants@))
                == Ok::<((u16, StructV), int), Error>(((name, sview(s)), p as int)) && p
                <= bytes@.len() && resolves_to_string_v(views_of(constants@), name as int)
                && struct_wf_v(views_of(constants@), sview(s)),
            Err(e) => spec_parse_struct(bytes@, pos as int, views_of(constants@)) == Err::<
                ((u16, StructV), int),
                Error,
            >(e),
        },
{
    let (name, p1) = match take_be16(bytes, pos) {
        Ok(x) => x,
        Err(e) => {
            return Err(e);
        },
    };
    match check_name(constants, name) {
        Some(e) => {
            return Err(e);
        },
        None => (),
    }
    let (kind, p2) = match take_u8(bytes, p1) {
        Ok(x) => x,
        Err(e) => {
            return Err(e);
        },
    };
    if kind == 0 {
        Ok(((name, Struct::Empty), p2))
    } else if kind == 1 {
        let (count, p3) = match take_be16(bytes, p2) {
            Ok(x) => x,
            Err(e) => {
                return Err(e);
            },
        };
        Ok(((name, Struct::Positional(count)), p3))
    } else if kind == 2 {
        let (count, p3) = match take_be16(bytes, p2) {
            Ok(x) => x,
            Err(e) => {
                return Err(e);
            },
        };
        let (fields, p4) = match parse_fields(bytes, p3, count, constants) {
            Ok(x) => x,
            Err(e) => {
                return Err(e);
            },
        };
        proof {
            assert(sview(Struct::Named(fields)) == StructV::Named(fields@));
        }
        Ok(((name, Struct::Named(fields)), p4))
    } else {
        Err(Error::InvalidStructTypeKind)
    }
}

fn parse_constants_block(bytes: &Vec<u8>, pos: usize, count: u16) -> (r: Result<
    (Vec<Constant>, usize),
    Error,
>)
    requires
        pos <= bytes@.len(),
    ensures
        match r {
            Ok((v, p)) => spec_parse_constants(bytes@, pos as int, count as int) == Ok::<
                (Seq<ConstantV>, int),
                Error,
            >((views_of(v@), p as int)) && p <= bytes@.len() && v@.len() == count && forall|j: int|
                0 <= j < v@.len() ==> (#[trigger] v@[j]).wf(),
            Err(e) => spec_parse_constants(bytes@, pos as int, count as int) == Err::<
                (Seq<ConstantV>, int),
                Error,
            >(e),
        },
{
    let mut constants: Vec<Constant> = Vec::new();
    let mut i: usize = 0;
    let mut p = pos;
    while i < count as usize
        invariant
            0 <= i <= count,
            pos <= bytes@.len(),
            p <= bytes@.len(),
            constants@.len() == i,
            forall|j: int| 0 <= j < i ==> (#[trigger] constants@[j]).wf(),
            match spec_parse_constants(bytes@, p as int, count - i) {
                Ok((rest, q)) => spec_parse_constants(bytes@, pos as int, count as int) == Ok::<
                    (Seq<ConstantV>, int),
                    Error,
                >((views_of(constants@) + rest, q)),
                Err(e) => spec_parse_constants(bytes@, pos as int, count as int) == Err::<
                    (Seq<ConstantV>, int),
                    Error,
                >(e),
            },
        decreases count - i,
    {
        let ghost prev = views_of(constants@);
        let (c, pn) = match parse_constant(bytes, p) {
            Ok(x) => x,
            Err(e) => {
                return Err(e);
            },
        };
        constants.push(c);
        i = i + 1;
        p = pn;
        proof {
            assert(views_of(constants@) =~= prev.push(cview(c)));
            match spec_parse_constants(bytes@, p as int, count - i) {
                Ok((rest, q)) => {
                    assert(prev + (seq![cview(c)] + rest) =~= views_of(constants@) + rest);
                },
                Err(_) => {},
            }
        }
    }
    proof {
        assert(views_of(constants@) + Seq::<ConstantV>::empty() =~= views_of(constants@));
    }
    Ok((constants, p))
}

fn parse_globals_block(bytes: &Vec<u8>, pos: usize, count: u16, constants: &Vec<Constant>) -> (r:
    Result<(Vec<(u16, u16)>, usize), Error>)
    requires
        pos <= bytes@.len(),
    ensures
        match r {
            Ok((v, p)) => spec_parse_globals(bytes@, pos as int, count as int, views_of(constants@))
                == Ok::<(Seq<(u16, u16)>, int), Error>((v@, p as int)) && p <= bytes@.len()
                && v@.len() == count && forall|j: int|
                0 <= j < v@.len() ==> resolves_to_string_v(
                    views_of(constants@),
                    (#[trigger] v@[j]).0 as int,
                ) && (v@[j].1 as int) < views_of(constants@).len(),
            Err(e) => spec_parse_globals(bytes@, pos as int, count as int, views_of(constants@))
                == Err::<(Seq<(u16, u16)>, int), Error>(e),
        },
{
    let ghost cvs = views_of(constants@);
    let mut globals: Vec<(u16, u16)> = Vec::new();
    let mut i: usize = 0;
    let mut p = pos;
    while i < count as usize
        invariant
            0 <= i <= count,
            pos <= bytes@.len(),
            p <= bytes@.len(),
            globals@.len() == i,
            cvs == views_of(constants@),
            forall|j: int|
                0 <= j < i ==> resolves_to_string_v(cvs, (#[trigger] globals@[j]).0 as int) && (
                globals@[j].1 as int) < cvs.len(),
            match spec_parse_globals(bytes@, p as int, count - i, cvs) {
                Ok((rest, q)) => spec_parse_globals(bytes@, pos as int, count as int, cvs) == Ok::<
                    (Seq<(u16, u16)>, int),
                    Error,
                >((globals@ + rest, q)),
                Err(e) => spec_parse_globals(bytes@, pos as int, count as int, cvs) == Err::<
                    (Seq<(u16, u16)>, int),
                    Error,
                >(e),
            },
        decreases count - i,
    {
        let (name, q1) = match take_be16(bytes, p) {
            Ok(x) => x,
            Err(e) => {
                return Err(e);
            },
        };
        let (value, q2) = match take_be16(bytes, q1) {
            Ok(x) => x,
            Err(e) => {
                return Err(e);
            },
        };
        match check_name(constants, name) {
            Some(e) => {
                return Err(e);
            },
            None => (),
        }
        if value as usize >= constants.len() {
            return Err(Error::InvalidConstantRef(value as usize, constants.len()));
        }
        let ghost prev = globals@;
        globals.push((name, value));
        i = i + 1;
        p = q2;
        proof {
            match spec_parse_globals(bytes@, p as int, count - i, cvs) {
                Ok((rest, q)) => {
                    assert(prev + (seq![(name, value)] + rest) =~= globals@ + rest);
                },
                Err(_) => {},
            }
        }
    }
    proof {
        assert(globals@ + Seq::<(u16, u16)>::empty() =~= globals@);
    }
    Ok((globals, p))
}

fn parse_structs_block(bytes: &Vec<u8>, pos: usize, count: u16, constants: &Vec<Constant>) -> (r:
    Result<(Vec<(u16, Struct)>, usize), Error>)
    requires
        pos <= bytes@.len(),
    ensures
        match r {
            Ok((v, p)) => spec_parse_structs(bytes@, pos as int, count as int, views_of(constants@))
                == Ok::<(Seq<(u16, StructV)>, int), Error>((struct_views_of(v@), p as int)) && p
                <= bytes@.len() && v@.len() == count && forall|j: int|
                0 <= j < v@.len() ==> resolves_to_string_v(
                    views_of(constants@),
                    (#[trigger] v@[j]).0 as int,
                ) && struct_wf_v(views_of(constants@), sview(v@[j].1)),
            Err(e) => spec_parse_structs(bytes@, pos as int, count as int, views_of(constants@))
                == Err::<(Seq<(u16, StructV)>, int), Error>(e),
        },
{
    let ghost cvs = views_of(constants@);
    let mut structs: Vec<(u16, Struct)> = Vec::new();
    let mut i: usize = 0;
    let mut p = pos;
    while i < count as usize
        invariant
            0 <= i <= count,
            pos <= bytes@.len(),
            p <= bytes@.len(),
            structs@.len() == i,
            cvs == views_of(constants@),
            forall|j: int|
                0 <= j < i ==> resolves_to_string_v(cvs, (#[trigger] structs@[j]).0 as int)
                    && struct_wf_v(cvs, sview(structs@[j].1)),
            match spec_parse_structs(bytes@, p as int, count - i, cvs) {
                Ok((rest, q)) => spec_parse_structs(bytes@, pos as int, count as int, cvs) == Ok::<
                    (Seq<(u16, StructV)>, int),
                    Error,
                >((struct_views_of(structs@) + rest, q)),
                Err(e) => spec_parse_structs(bytes@, pos as int, count as int, cvs) == Err::<
                    (Seq<(u16, StructV)>, int),
                    Error,
                >(e),
            },
        decreases count - i,
    {
        let ghost prev = struct_views_of(structs@);
        let ((name, s), pn) = match parse_struct_entry(bytes, p, constants) {
            Ok(x) => x,
            Err(e) => {
                return Err(e);
            },
        };
        let ghost sv = sview(s);
        structs.push((name, s));
        i = i + 1;
        p = pn;
        proof {
            assert(struct_views_of(structs@) =~= prev.push((name, sv)));
            match spec_parse_structs(bytes@, p as int, count - i, cvs) {
                Ok((rest, q)) => {
                    assert(prev + (seq![(name, sv)] + rest) =~= struct_views_of(structs@) + rest);
                },
                Err(_) => {},
            }
        }
    }
    proof {
        assert(struct_views_of(structs@) + Seq::<(u16, StructV)>::empty() =~= struct_views_of(
            structs@,
        ));
    }
    Ok((structs, p))
}

/// Parse a bytecode module from its byte form. On success the module is
/// well formed and is exactly what the specification-level parse of the
/// bytes yields; on failure the error is exactly the one that parse yields.
pub fn parse_bytecode(bytes: &Vec<u8>) -> (r: Result<Module, Error>)
    ensures
        match r {
            Ok(m) => spec_parse_module(bytes@) == Ok::<ModuleV, Error>(mview(m)) && m.wf(),
            Err(e) => spec_parse_module(bytes@) == Err::<ModuleV, Error>(e),
        },
{
    let n = bytes.len();
    if n < 8 {
        return Err(Error::UnexpectedEnd);
    }
    if !(bytes[0] == 115 && bytes[1] == 112 && bytes[2] == 114 && bytes[3] == 97 && bytes[4] == 99
        && bytes[5] == 104 && bytes[6] == 108 && bytes[7] == 105) {
        proof {
            assert(bytes@.subrange(0, 8) != spec_magic()) by {
                if bytes@.subrange(0, 8) == spec_magic() {
                    assert(bytes@.subrange(0, 8)[0] == spec_magic()[0]);
                    assert(bytes@.subrange(0, 8)[1] == spec_magic()[1]);
                    assert(bytes@.subrange(0, 8)[2] == spec_magic()[2]);
                    assert(bytes@.subrange(0, 8)[3] == spec_magic()[3]);
                    assert(bytes@.subrange(0, 8)[4] == spec_magic()[4]);
                    assert(bytes@.subrange(0, 8)[5] == spec_magic()[5]);
                    assert(bytes@.subrange(0, 8)[6] == spec_magic()[6]);
                    assert(bytes@.subrange(0, 8)[7] == spec_magic()[7]);
                }
            }
        }
        return Err(Error::InvalidMagic);
    }
    proof {
        assert(bytes@.subrange(0, 8) =~= spec_magic());
    }
    let (_version, p0) = match take_be16(bytes, 8) {
        Ok(x) => x,
        Err(e) => {
            return Err(e);
        },
    };
    let (nc, p1) = match take_be16(bytes, p0) {
        Ok(x) => x,
        Err(e) => {
            return Err(e);
        },
    };
    let (constants, p2) = match parse_constants_block(bytes, p1, nc) {
        Ok(x) => x,
        Err(e) => {
            return Err(e);
        },
    };
    let (ng, p3) = match take_be16(bytes, p2) {
        Ok(x) => x,
        Err(e) => {
            return Err(e);
        },
    };
    let (globals, p4) = match parse_globals_block(bytes, p3, ng, &constants) {
        Ok(x) => x,
        Err(e) => {
            return Err(e);
        },
    };
    let (ns, p5) = match take_be16(bytes, p4) {
        Ok(x) => x,
        Err(e) => {
            return Err(e);
        },
    };
    let (structs, _p6) = match parse_structs_block(bytes, p5, ns, &constants) {
        Ok(x) => x,
        Err(e) => {
            return Err(e);
        },
    };
    let ghost cvs = views_of(constants@);
    let m = Module::new(constants, globals, structs);
    proof {
        assert(mview(m).constants =~= cvs);
        assert(mview(m).structs =~= struct_views_of(m.structs@));
        assert(module_wf_v(mview(m)));
        assert(spec_parse_module(bytes@) == Ok::<ModuleV, Error>(mview(m)));
    }
    Ok(m)
}


// ---------------------------------------------------------------------------
// Parsing inverts writing
// ---------------------------------------------------------------------------

/// A byte of an encoded chunk placed at `pos` inside `b` is readable there.
proof fn lemma_byte_at(b: Seq<u8>, pos: int, enc: Seq<u8>, off: int)
    requires
        0 <= pos,
        pos + enc.len() <= b.len(),
        b.subrange(pos, pos + enc.len()) == enc,
        0 <= off < enc.len(),
    ensures
        b[pos + off] == enc[off],
{
    assert(b.subrange(pos, pos + enc.len())[off] == enc[off]);
}

/// A piece of an encoded chunk placed at `pos` inside `b` is a subrange of
/// `b` at the piece's offset.
proof fn lemma_bytes_at(b: Seq<u8>, pos: int, enc: Seq<u8>, off: int, piece: Seq<u8>)
    requires
        0 <= pos,
        pos + enc.len() <= b.len(),
        b.subrange(pos, pos + enc.len()) == enc,
        0 <= off,
        off + piece.len() <= enc.len(),
        enc.subrange(off, off + piece.len()) == piece,
    ensures
        b.subrange(pos + off, pos + off + piece.len()) == piece,
{
    assert forall|j: int|
        0 <= j < piece.len() implies b.subrange(pos + off, pos + off + piece.len())[j]
        == piece[j] by {
        assert(b.subrange(pos, pos + enc.len())[off + j] == enc[off + j]);
        assert(enc.subrange(off, off + piece.len())[j] == piece[j]);
    }
    assert(b.subrange(pos + off, pos + off + piece.len()) =~= piece);
}

proof fn lemma_be16_inv(b: Seq<u8>, pos: int, n: u16)
    requires
        0 <= pos,
        pos + 2 <= b.len(),
        b[pos] == spec_be16(n)[0],
        b[pos + 1] == spec_be16(n)[1],
    ensures
        spec_take_be16(b, pos) == Ok::<(u16, int), Error>((n, pos + 2)),
{
    assert(b[pos] == (n / 256) as u8);
    assert(b[pos + 1] == (n % 256) as u8);
    assert((n / 256) as int * 256 + (n % 256) as int == n as int) by {
        vstd::arithmetic::div_mod::lemma_fundamental_div_mod(n as int, 256);
    }
}

/// Read a big-endian count placed at offset `off` of a chunk at `pos`.
proof fn lemma_be16_at(b: Seq<u8>, pos: int, enc: Seq<u8>, off: int, n: u16)
    requires
        0 <= pos,
        pos + enc.len() <= b.len(),
        b.subrange(pos, pos + enc.len()) == enc,
        0 <= off,
        off + 2 <= enc.len(),
        enc[off] == spec_be16(n)[0],
        enc[off + 1] == spec_be16(n)[1],
    ensures
        spec_take_be16(b, pos + off) == Ok::<(u16, int), Error>((n, pos + off + 2)),
{
    lemma_byte_at(b, pos, enc, off);
    lemma_byte_at(b, pos, enc, off + 1);
    lemma_be16_inv(b, pos + off, n);
}

proof fn lemma_parse_constant_inv(b: Seq<u8>, pos: int, c: ConstantV)
    requires
        constant_wf_v(c),
        0 <= pos,
        pos + spec_encode_constant(c).len() <= b.len(),
        b.subrange(pos, pos + spec_encode_constant(c).len()) == spec_encode_constant(c),
    ensures
        spec_parse_constant(b, pos) == Ok::<(ConstantV, int), Error>(
            (c, pos + spec_encode_constant(c).len()),
        ),
{
    let enc = spec_encode_constant(c);
    match c {
        ConstantV::Number(bs) => {
            let len = bs.len() as u16;
            assert(enc == seq![0u8] + spec_be16(len) + bs);
            lemma_byte_at(b, pos, enc, 0);
            assert(enc[0] == 0);
            assert(enc[1] == spec_be16(len)[0]);
            assert(enc[2] == spec_be16(len)[1]);
            lemma_be16_at(b, pos, enc, 1, len);
            assert(enc.subrange(3, 3 + len as int) =~= bs);
            lemma_bytes_at(b, pos, enc, 3, bs);
            assert(spec_take_bytes(b, pos + 3, len as int) == Ok::<(Seq<u8>, int), Error>(
                (bs, pos + 3 + len as int),
            ));
        },
        ConstantV::String(bs) => {
            let len = bs.len() as u16;
            assert(enc == seq![1u8] + spec_be16(len) + bs);
            lemma_byte_at(b, pos, enc, 0);
            assert(enc[0] == 1);
            assert(enc[1] == spec_be16(len)[0]);
            assert(enc[2] == spec_be16(len)[1]);
            lemma_be16_at(b, pos, enc, 1, len);
            assert(enc.subrange(3, 3 + len as int) =~= bs);
            lemma_bytes_at(b, pos, enc, 3, bs);
            assert(spec_take_bytes(b, pos + 3, len as int) == Ok::<(Seq<u8>, int), Error>(
                (bs, pos + 3 + len as int),
            ));
        },
        ConstantV::Function(f) => {
            let len = f.body.len() as u16;
            assert(enc == seq![2u8] + spec_be16(f.arity) + spec_be16(len) + f.body);
            lemma_byte_at(b, pos, enc, 0);
            assert(enc[0] == 2);
            assert(enc[1] == spec_be16(f.arity)[0]);
            assert(enc[2] == spec_be16(f.arity)[1]);
            lemma_be16_at(b, pos, enc, 1, f.arity);
            assert(enc[3] == spec_be16(len)[0]);
            assert(enc[4] == spec_be16(len)[1]);
            lemma_be16_at(b, pos, enc, 3, len);
            assert(enc.subrange(5, 5 + len as int) =~= f.body);
            lemma_bytes_at(b, pos, enc, 5, f.body);
            assert(spec_take_bytes(b, pos + 5, len as int) == Ok::<(Seq<u8>, int), Error>(
                (f.body, pos + 5 + len as int),
            ));
        },
    }
}

proof fn lemma_parse_constants_inv(b: Seq<u8>, pos: int, l: Seq<ConstantV>)
    requires
        forall|i: int| 0 <= i < l.len() ==> constant_wf_v(#[trigger] l[i]),
        0 <= pos,
        pos + spec_encode_constants(l).len() <= b.len(),
        b.subrange(pos, pos + spec_encode_constants(l).len()) == spec_encode_constants(l),
    ensures
        spec_parse_constants(b, pos, l.len() as int) == Ok::<(Seq<ConstantV>, int), Error>(
            (l, pos + spec_encode_constants(l).len()),
        ),
    decreases l.len(),
{
    let encs = spec_encode_constants(l);
    if l.len() == 0 {
        assert(l =~= Seq::<ConstantV>::empty());
    } else {
        let e0 = spec_encode_constant(l[0]);
        let er = spec_encode_constants(l.drop_first());
        assert(encs == e0 + er);
        assert(encs.subrange(0, e0.len() as int) =~= e0);
        lemma_bytes_at(b, pos, encs, 0, e0);
        assert(b.subrange(pos, pos + e0.len()) == e0);
        lemma_parse_constant_inv(b, pos, l[0]);
        assert(encs.subrange(e0.len() as int, (e0.len() + er.len()) as int) =~= er);
        lemma_bytes_at(b, pos, encs, e0.len() as int, er);
        lemma_parse_constants_inv(b, pos + e0.len(), l.drop_first());
        assert(seq![l[0]] + l.drop_first() =~= l);
    }
}

proof fn lemma_parse_globals_inv(b: Seq<u8>, pos: int, l: Seq<(u16, u16)>, cs: Seq<ConstantV>)
    requires
        forall|i: int|
            0 <= i < l.len() ==> resolves_to_string_v(cs, (#[trigger] l[i]).0 as int) && (
            l[i].1 as int) < cs.len(),
        0 <= pos,
        pos + spec_encode_globals(l).len() <= b.len(),
        b.subrange(pos, pos + spec_encode_globals(l).len()) == spec_encode_globals(l),
    ensures
        spec_parse_globals(b, pos, l.len() as int, cs) == Ok::<(Seq<(u16, u16)>, int), Error>(
            (l, pos + spec_encode_globals(l).len()),
        ),
    decreases l.len(),
{
    let encs = spec_encode_globals(l);
    if l.len() == 0 {
        assert(l =~= Seq::<(u16, u16)>::empty());
    } else {
        let e0 = spec_encode_global(l[0]);
        let er = spec_encode_globals(l.drop_first());
        assert(encs == e0 + er);
        assert(e0 == spec_be16(l[0].0) + spec_be16(l[0].1));
        assert(encs[0] == spec_be16(l[0].0)[0]);
        assert(encs[1] == spec_be16(l[0].0)[1]);
        lemma_be16_at(b, pos, encs, 0, l[0].0);
        assert(encs[2] == spec_be16(l[0].1)[0]);
        assert(encs[3] == spec_be16(l[0].1)[1]);
        lemma_be16_at(b, pos, encs, 2, l[0].1);
        assert(spec_check_name(cs, l[0].0 as int) is None);
        assert(encs.subrange(4, (4 + er.len()) as int) =~= er);
        lemma_bytes_at(b, pos, encs, 4, er);
        lemma_parse_globals_inv(b, pos + 4, l.drop_first(), cs);
        assert(seq![l[0]] + l.drop_first() =~= l);
    }
}

proof fn lemma_parse_fields_inv(b: Seq<u8>, pos: int, l: Seq<u16>, cs: Seq<ConstantV>)
    requires
        forall|i: int| 0 <= i < l.len() ==> resolves_to_string_v(cs, (#[trigger] l[i]) as int),
        0 <= pos,
        pos + spec_encode_fields(l).len() <= b.len(),
        b.subrange(pos, pos + spec_encode_fields(l).len()) == spec_encode_fields(l),
    ensures
        spec_parse_fields(b, pos, l.len() as int, cs) == Ok::<(Seq<u16>, int), Error>(
            (l, pos + spec_encode_fields(l).len()),
        ),
    decreases l.len(),
{
    let encs = spec_encode_fields(l);
    if l.len() == 0 {
        assert(l =~= Seq::<u16>::empty());
    } else {
        let e0 = spec_be16(l[0]);
        let er = spec_encode_fields(l.drop_first());
        assert(encs == e0 + er);
        assert(encs[0] == spec_be16(l[0])[0]);
        assert(encs[1] == spec_be16(l[0])[1]);
        lemma_be16_at(b, pos, encs, 0, l[0]);
        assert(spec_check_name(cs, l[0] as int) is None);
        assert(encs.subrange(2, (2 + er.len()) as int) =~= er);
        lemma_bytes_at(b, pos, encs, 2, er);
        lemma_parse_fields_inv(b, pos + 2, l.drop_first(), cs);
        assert(seq![l[0]] + l.drop_first() =~= l);
    }
}

proof fn lemma_parse_struct_inv(b: Seq<u8>, pos: int, e: (u16, StructV), cs: Seq<ConstantV>)
    requires
        resolves_to_string_v(cs, e.0 as int),
        struct_wf_v(cs, e.1),
        0 <= pos,
        pos + spec_encode_struct(e).len() <= b.len(),
        b.subrange(pos, pos + spec_encode_struct(e).len()) == spec_encode_struct(e),
    ensures
        spec_parse_struct(b, pos, cs) == Ok::<((u16, StructV), int), Error>(
            (e, pos + spec_encode_struct(e).len()),
        ),
{
    let enc = spec_encode_struct(e);
    assert(enc[0] == spec_be16(e.0)[0]);
    assert(enc[1] == spec_be16(e.0)[1]);
    lemma_be16_at(b, pos, enc, 0, e.0);
    assert(spec_check_name(cs, e.0 as int) is None);
    match e.1 {
        StructV::Empty => {
            assert(enc == spec_be16(e.0) + seq![0u8]);
            lemma_byte_at(b, pos, enc, 2);
            assert(enc[2] == 0);
        },
        StructV::Positional(n) => {
            assert(enc == spec_be16(e.0) + (seq![1u8] + spec_be16(n)));
            lemma_byte_at(b, pos, enc, 2);
            assert(enc[2] == 1);
            assert(enc[3] == spec_be16(n)[0]);
            assert(enc[4] == spec_be16(n)[1]);
            lemma_be16_at(b, pos, enc, 3, n);
        },
        StructV::Named(fields) => {
            let count = fields.len() as u16;
            assert(enc == spec_be16(e.0) + (seq![2u8] + spec_be16(count) + spec_encode_fields(
                fields,
            )));
            lemma_byte_at(b, pos, enc, 2);
            assert(enc[2] == 2);
            assert(enc[3] == spec_be16(count)[0]);
            assert(enc[4] == spec_be16(count)[1]);
            lemma_be16_at(b, pos, enc, 3, count);
            assert(enc.subrange(5, (5 + spec_encode_fields(fields).len()) as int) =~= spec_encode_fields(
                fields,
            ));
            lemma_bytes_at(b, pos, enc, 5, spec_encode_fields(fields));
            lemma_parse_fields_inv(b, pos + 5, fields, cs);
        },
    }
}

proof fn lemma_parse_structs_inv(b: Seq<u8>, pos: int, l: Seq<(u16, StructV)>, cs: Seq<ConstantV>)
    requires
        forall|i: int|
            0 <= i < l.len() ==> resolves_to_string_v(cs, (#[trigger] l[i]).0 as int)
                && struct_wf_v(cs, l[i].1),
        0 <= pos,
        pos + spec_encode_structs(l).len() <= b.len(),
        b.subrange(pos, pos + spec_encode_structs(l).len()) == spec_encode_structs(l),
    ensures
        spec_parse_structs(b, pos, l.len() as int, cs) == Ok::<(Seq<(u16, StructV)>, int), Error>(
            (l, pos + spec_encode_structs(l).len()),
        ),
    decreases l.len(),
{
    let encs = spec_encode_structs(l);
    if l.len() == 0 {
        assert(l =~= Seq::<(u16, StructV)>::empty());
    } else {
        let e0 = spec_encode_struct(l[0]);
        let er = spec_encode_structs(l.drop_first());
        assert(encs == e0 + er);
        assert(encs.subrange(0, e0.len() as int) =~= e0);
        lemma_bytes_at(b, pos, encs, 0, e0);
        assert(b.subrange(pos, pos + e0.len()) == e0);
        lemma_parse_struct_inv(b, pos, l[0], cs);
        assert(encs.subrange(e0.len() as int, (e0.len() + er.len()) as int) =~= er);
        lemma_bytes_at(b, pos, encs, e0.len() as int, er);
        lemma_parse_structs_inv(b, pos + e0.len(), l.drop_first(), cs);
        assert(seq![l[0]] + l.drop_first() =~= l);
    }
}

/// Round trip of the codec: parsing the written form of any well-formed
/// module yields that module back, with the same constants (in order), the
/// same globals and struct descriptors, and function bodies byte for byte.
/// Trailing bytes after the encoded module do not disturb the parse.
#[verifier::rlimit(100)]
#[verifier::spinoff_prover]
pub proof fn lemma_parse_inverts_encode(mv: ModuleV, suffix: Seq<u8>)
    requires
        module_wf_v(mv),
    ensures
        spec_parse_module(spec_encode_module(mv) + suffix) == Ok::<ModuleV, Error>(mv),
{
    let b = spec_encode_module(mv) + suffix;
    let nc = mv.constants.len() as u16;
    let ng = mv.globals.len() as u16;
    let ns = mv.structs.len() as u16;
    let cs_enc = spec_encode_constants(mv.constants);
    let gs_enc = spec_encode_globals(mv.globals);
    let ss_enc = spec_encode_structs(mv.structs);
    let enc = spec_magic() + spec_be16(0) + spec_be16(nc) + cs_enc + spec_be16(ng) + gs_enc
        + spec_be16(ns) + ss_enc;
    assert(spec_encode_module(mv) == enc);
    assert(b.subrange(0, enc.len() as int) =~= enc);
    let o3 = 12int;
    let o4 = o3 + cs_enc.len();
    let o5 = o4 + 2;
    let o6 = o5 + gs_enc.len();
    let o7 = o6 + 2;

    assert(enc.subrange(0, 8) =~= spec_magic());
    lemma_bytes_at(b, 0, enc, 0, spec_magic());
    assert(b.subrange(0, 8) == spec_magic());
    assert(enc[8] == spec_be16(0)[0]);
    assert(enc[9] == spec_be16(0)[1]);
    lemma_be16_at(b, 0, enc, 8, 0);
    assert(spec_parse_header(b, 0) == Ok::<(u16, int), Error>((0, 10)));

    assert(enc[10] == spec_be16(nc)[0]);
    assert(enc[11] == spec_be16(nc)[1]);
    lemma_be16_at(b, 0, enc, 10, nc);
    assert(enc.subrange(o3, o3 + cs_enc.len()) =~= cs_enc);
    lemma_bytes_at(b, 0, enc, o3, cs_enc);
    assert(nc as int == mv.constants.len());
    lemma_parse_constants_inv(b, o3, mv.constants);

    assert(enc[o4] == spec_be16(ng)[0]);
    assert(enc[o4 + 1] == spec_be16(ng)[1]);
    lemma_be16_at(b, 0, enc, o4, ng);
    assert(enc.subrange(o5, o5 + gs_enc.len()) =~= gs_enc);
    lemma_bytes_at(b, 0, enc, o5, gs_enc);
    assert(ng as int == mv.globals.len());
    lemma_parse_globals_inv(b, o5, mv.globals, mv.constants);

    assert(enc[o6] == spec_be16(ns)[0]);
    assert(enc[o6 + 1] == spec_be16(ns)[1]);
    lemma_be16_at(b, 0, enc, o6, ns);
    assert(enc.subrange(o7, o7 + ss_enc.len()) =~= ss_enc);
    lemma_bytes_at(b, 0, enc, o7, ss_enc);
    assert(ns as int == mv.structs.len());
    lemma_parse_structs_inv(b, o7, mv.structs, mv.constants);

    assert(spec_parse_module(b) == Ok::<ModuleV, Error>(
        ModuleV { constants: mv.constants, globals: mv.globals, structs: mv.structs },
    ));
    assert(ModuleV { constants: mv.constants, globals: mv.globals, structs: mv.structs } == mv);
}

} // verus!
