//! The AST-to-bytecode compiler: lowering of declarations, statements and
//! expressions to instruction streams, with a deduplicated constant pool,
//! lexical-scope tracking on a virtual operand stack, and forward and
//! backward jump patching.

use vstd::prelude::*;

use crate::ast;
use crate::checker::{checked_function, propose_depth_map, validate_depth_map};
use crate::codec::{struct_views_of, views_of};
use crate::instruction::{
    lemma_encode_list_push, spec_encode_list, spec_encodes_list, spec_well_encoded,
    InlineConstant, Instruction, Offset,
};
use crate::module::{
    constant_wf_v, module_wf_v, mview, resolves_to_string_v, spec_constant_eq, struct_wf_v,
    Constant, ConstantV, Function, Module, ModuleV, Struct,
};
use crate::number::num_canon_bytes;
use crate::strings::{str_to_bytes, string_from_literal, utf8_check, ParseStringError};

verus! {

/// A language construct the compiler does not support.
#[derive(Clone, Copy, Debug, PartialEq, Eq, Structural)]
pub enum UnsupportedConstruct {
    UseDeclaration,
    Mixin,
    ImplBlock,
    NestedDeclaration,
}

/// Compile-time errors.
#[derive(Clone, Copy, Debug, PartialEq, Eq, Structural)]
pub enum Error {
    /// The left side of an assignment is not an identifier.
    InvalidAssignmentTarget,
    /// Assignment to a local that is not marked mutable.
    ImmutableVariable,
    /// `break` or `continue` outside any loop.
    NoLoopToExit,
    /// A language construct that cannot be compiled.
    Unsupported(UnsupportedConstruct),
    /// An internal fault of the compiler itself.
    Internal(InternalError),
}

/// Internal compiler faults: these indicate a malformed literal or a flaw in
/// the generated code, not a fault of the source program's structure.
#[derive(Clone, Copy, Debug, PartialEq, Eq, Structural)]
pub enum InternalError {
    /// A numeric literal does not parse as a decimal.
    InvalidNumberLiteral,
    /// A string literal's escapes are malformed.
    InvalidStringLiteral(ParseStringError),
    /// The virtual stack bookkeeping would go negative or ends unbalanced.
    InvalidStackEffect,
    /// The generated instruction sequence cannot be encoded: a placeholder
    /// survived, a parameter or jump is out of byte range, or a count
    /// overflows the format's 16-bit fields.
    InvalidBytecode,
}

pub type Result<T> = core::result::Result<T, Error>;

// ---------------------------------------------------------------------------
// The constant pool and module-level compiler
// ---------------------------------------------------------------------------

/// No two entries of the pool are structurally equal.
pub open spec fn pool_dedup(l: Seq<Constant>) -> bool {
    forall|i: int, j: int| 0 <= i < j < l.len() ==> !spec_constant_eq(l[i], l[j])
}

/// Every function constant of the pool passes the stack-effect and
/// jump-validity check, and its body is the encoding of an instruction
/// sequence whose parameters all fit their one-byte form — so the byte at
/// every instruction boundary is a valid, nonzero opcode.
pub open spec fn functions_checked(l: Seq<Constant>) -> bool {
    forall|i: int|
        0 <= i < l.len() ==> ((#[trigger] l[i]) matches Constant::Function(f) ==> {
            &&& checked_function(f.arity as int, f.body@)
            &&& spec_well_encoded(f.body@)
        })
}

/// Structural equality is symmetric and transitive, so a deduplicated pool
/// holds at most one entry equal to any given constant.
pub proof fn lemma_constant_eq_trans(a: Constant, b: Constant, c: Constant)
    ensures
        spec_constant_eq(a, b) && spec_constant_eq(b, c) ==> spec_constant_eq(a, c),
        spec_constant_eq(a, b) ==> spec_constant_eq(b, a),
{
}

/// The interning law: in a deduplicated pool, two structurally equal
/// constants intern at the same index.
pub proof fn lemma_interning_deterministic(
    pool: Seq<Constant>,
    c1: Constant,
    c2: Constant,
    k1: int,
    k2: int,
)
    requires
        pool_dedup(pool),
        spec_constant_eq(c1, c2),
        0 <= k1 < pool.len(),
        spec_constant_eq(pool[k1], c1),
        0 <= k2 < pool.len(),
        spec_constant_eq(pool[k2], c2),
    ensures
        k1 == k2,
{
    if k1 != k2 {
        lemma_constant_eq_trans(pool[k1], c1, c2);
        assert(spec_constant_eq(pool[k1], c2));
        lemma_constant_eq_trans(pool[k2], c2, c2);
        assert(spec_constant_eq(c2, pool[k2]));
        lemma_constant_eq_trans(pool[k1], c2, pool[k2]);
        assert(spec_constant_eq(pool[k1], pool[k2]));
        lemma_constant_eq_trans(pool[k1], pool[k2], pool[k2]);
        assert(spec_constant_eq(pool[k2], pool[k1]));
        if k1 < k2 {
            assert(!spec_constant_eq(pool[k1], pool[k2]));
        } else {
            assert(!spec_constant_eq(pool[k2], pool[k1]));
        }
        assert(false);
    }
}

/// The module-level compiler: the growing constant pool, the global
/// bindings and the struct descriptors.
pub struct Compiler {
    pub constants: Vec<Constant>,
    pub globals: Vec<(u16, u16)>,
    pub struct_types: Vec<(u16, Struct)>,
}

impl Compiler {
    /// The ghost view of the module being built.
    pub open spec fn as_view(self) -> ModuleV {
        ModuleV {
            constants: views_of(self.constants@),
            globals: self.globals@,
            structs: struct_views_of(self.struct_types@),
        }
    }

    /// The compiler's invariant: the module under construction is well
    /// formed, its pool deduplicated, and its functions checked.
    pub open spec fn inv(self) -> bool {
        &&& module_wf_v(self.as_view())
        &&& pool_dedup(self.constants@)
        &&& functions_checked(self.constants@)
    }

    pub fn new() -> (r: Compiler)
        ensures
            r.inv(),
            r.constants@.len() == 0,
            r.globals@.len() == 0,
            r.struct_types@.len() == 0,
    {
        let r = Compiler { constants: Vec::new(), globals: Vec::new(), struct_types: Vec::new() };
        proof {
            assert(views_of(r.constants@) =~= Seq::<ConstantV>::empty());
            assert(struct_views_of(r.struct_types@) =~= Seq::<(u16, crate::module::StructV)>::empty());
        }
        r
    }

    /// Intern a constant: the index of the structurally equal entry already
    /// present, else the index of the constant appended at the end. Indices
    /// of earlier entries are stable.
    pub fn add_constant(&mut self, c: Constant) -> (r: Result<u16>)
        requires
            old(self).inv(),
            c.wf(),
            c matches Constant::Function(f) ==> checked_function(f.arity as int, f.body@)
                && spec_well_encoded(f.body@),
        ensures
            final(self).inv(),
            final(self).globals == old(self).globals,
            final(self).struct_types == old(self).struct_types,
            old(self).constants@.len() <= final(self).constants@.len(),
            final(self).constants@.subrange(0, old(self).constants@.len() as int) == old(
                self,
            ).constants@,
            match r {
                Ok(k) => {
                    &&& (k as int) < final(self).constants@.len()
                    &&& spec_constant_eq(final(self).constants@[k as int], c)
                    &&& (if exists|i: int|
                        0 <= i < old(self).constants@.len() && spec_constant_eq(
                            #[trigger] old(self).constants@[i],
                            c,
                        ) {
                        final(self).constants == old(self).constants
                    } else {
                        final(self).constants@ == old(self).constants@.push(c)
                    })
                },
                Err(e) => {
                    &&& e == Error::Internal(InternalError::InvalidBytecode)
                    &&& final(self).constants == old(self).constants
                    &&& old(self).constants@.len() == 65535
                    &&& !exists|i: int|
                        0 <= i < old(self).constants@.len() && spec_constant_eq(
                            #[trigger] old(self).constants@[i],
                            c,
                        )
                },
            },
    {
        let n = self.constants.len();
        let mut i: usize = 0;
        while i < n
            invariant
                0 <= i <= n,
                n == self.constants@.len(),
                self.constants == old(self).constants,
                self.globals == old(self).globals,
                self.struct_types == old(self).struct_types,
                old(self).inv(),
                forall|j: int| 0 <= j < i ==> !spec_constant_eq(#[trigger] self.constants@[j], c),
            decreases n - i,
        {
            if self.constants[i].equals(&c) {
                proof {
                    assert(self.constants@.subrange(0, n as int) =~= self.constants@);
                }
                return Ok(i as u16);
            }
            i = i + 1;
        }
        if n >= 65535 {
            proof {
                assert(self.constants@.subrange(0, n as int) =~= self.constants@);
            }
            return Err(Error::Internal(InternalError::InvalidBytecode));
        }
        let ghost old_view = self.as_view();
        self.constants.push(c);
        proof {
            assert(self.constants@.subrange(0, n as int) =~= old(self).constants@);
            assert(views_of(self.constants@) =~= views_of(old(self).constants@).push(
                crate::module::cview(c),
            ));
            lemma_wf_v_push_constant(old_view, crate::module::cview(c));
            assert(self.as_view() == ModuleV {
                constants: old_view.constants.push(crate::module::cview(c)),
                globals: old_view.globals,
                structs: old_view.structs,
            });
        }
        Ok(n as u16)
    }

    /// Bind a global: intern the name and the value and record the pair,
    /// keeping the binding list sorted by name index with unique keys.
    fn add_global(&mut self, name: &String, value: Constant) -> (r: Result<()>)
        requires
            old(self).inv(),
            value.wf(),
            value matches Constant::Function(f) ==> checked_function(f.arity as int, f.body@)
                && spec_well_encoded(f.body@),
        ensures
            final(self).inv(),
    {
        let name_bytes = str_to_bytes(name.as_str());
        if name_bytes.len() > 65535 {
            return Err(Error::Internal(InternalError::InvalidBytecode));
        }
        let k = match self.add_constant(Constant::String(name_bytes)) {
            Ok(k) => k,
            Err(e) => {
                return Err(e);
            },
        };
        let v = match self.add_constant(value) {
            Ok(v) => v,
            Err(e) => {
                return Err(e);
            },
        };
        proof {
            assert(self.as_view().constants[k as int] is String);
            assert(resolves_to_string_v(self.as_view().constants, k as int));
        }
        self.insert_global_sorted(k, v)
    }

    /// Insert a (name index, value index) pair, sorted by name index; an
    /// existing binding of the same name index is replaced.
    fn insert_global_sorted(&mut self, k: u16, v: u16) -> (r: Result<()>)
        requires
            old(self).inv(),
            resolves_to_string_v(old(self).as_view().constants, k as int),
            (v as int) < old(self).as_view().constants.len(),
        ensures
            final(self).inv(),
    {
        let n = self.globals.len();
        let mut i: usize = 0;
        while i < n
            invariant
                0 <= i <= n,
                n == self.globals@.len(),
                self.inv(),
                self == old(self),
                resolves_to_string_v(self.as_view().constants, k as int),
                (v as int) < self.as_view().constants.len(),
            decreases n - i,
        {
            if self.globals[i].0 == k {
                let ghost gv = self.as_view();
                self.globals[i] = (k, v);
                proof {
                    lemma_wf_v_update_global(gv, i as int, (k, v));
                }
                return Ok(());
            }
            if self.globals[i].0 > k {
                break;
            }
            i = i + 1;
        }
        if n >= 65535 {
            return Err(Error::Internal(InternalError::InvalidBytecode));
        }
        let ghost gv = self.as_view();
        self.globals.insert(i, (k, v));
        proof {
            lemma_wf_v_insert_global(gv, i as int, (k, v));
        }
        Ok(())
    }

    /// Record a struct descriptor under its interned name, sorted by name
    /// index with unique keys.
    fn insert_struct_sorted(&mut self, k: u16, s: Struct) -> (r: Result<()>)
        requires
            old(self).inv(),
            resolves_to_string_v(old(self).as_view().constants, k as int),
            struct_wf_v(old(self).as_view().constants, crate::module::sview(s)),
        ensures
            final(self).inv(),
    {
        let n = self.struct_types.len();
        let mut i: usize = 0;
        while i < n
            invariant
                0 <= i <= n,
                n == self.struct_types@.len(),
                self.inv(),
                self == old(self),
            decreases n - i,
        {
            if self.struct_types[i].0 == k {
                break;
            }
            if self.struct_types[i].0 > k {
                break;
            }
            i = i + 1;
        }
        if i < n && self.struct_types[i].0 == k {
            let ghost gv = self.as_view();
            let ghost sv = crate::module::sview(s);
            self.struct_types[i] = (k, s);
            proof {
                assert(struct_views_of(self.struct_types@) =~= gv.structs.update(
                    i as int,
                    (k, sv),
                ));
                lemma_wf_v_update_struct(gv, i as int, (k, sv));
            }
            return Ok(());
        }
        if n >= 65535 {
            return Err(Error::Internal(InternalError::InvalidBytecode));
        }
        let ghost gv = self.as_view();
        let ghost sv = crate::module::sview(s);
        self.struct_types.insert(i, (k, s));
        proof {
            assert(struct_views_of(self.struct_types@) =~= gv.structs.insert(i as int, (k, sv)));
            lemma_wf_v_insert_struct(gv, i as int, (k, sv));
        }
        Ok(())
    }

    /// Compile every declaration of a source file in order.
    pub fn visit_source_file(&mut self, file: &ast::SourceFile) -> (r: Result<()>)
        requires
            old(self).inv(),
        ensures
            final(self).inv(),
            r is Ok ==> forall|i: int|
                0 <= i < file.declarations@.len() ==> (#[trigger] file.declarations@[i]) is Fn
                    || file.declarations@[i] is Struct,
    {
        let n = file.declarations.len();
        let mut i: usize = 0;
        while i < n
            invariant
                0 <= i <= n,
                n == file.declarations@.len(),
                self.inv(),
                forall|j: int|
                    0 <= j < i ==> (#[trigger] file.declarations@[j]) is Fn
                        || file.declarations@[j] is Struct,
            decreases n - i,
        {
            match self.visit_declaration(&file.declarations[i]) {
                Ok(()) => (),
                Err(e) => {
                    return Err(e);
                },
            }
            i = i + 1;
        }
        Ok(())
    }

    fn visit_declaration(&mut self, decl: &ast::Declaration) -> (r: Result<()>)
        requires
            old(self).inv(),
        ensures
            final(self).inv(),
            r is Ok ==> *decl is Fn || *decl is Struct,
            *decl is Use ==> r == Err::<(), Error>(
                Error::Unsupported(UnsupportedConstruct::UseDeclaration),
            ) && *final(self) == *old(self),
            *decl is Mixin ==> r == Err::<(), Error>(
                Error::Unsupported(UnsupportedConstruct::Mixin),
            ) && *final(self) == *old(self),
            *decl is Impl ==> r == Err::<(), Error>(
                Error::Unsupported(UnsupportedConstruct::ImplBlock),
            ) && *final(self) == *old(self),
        decreases *decl,
    {
        match decl {
            ast::Declaration::Use(_) => Err(
                Error::Unsupported(UnsupportedConstruct::UseDeclaration),
            ),
            ast::Declaration::Fn(d) => self.visit_fn(d),
            ast::Declaration::Struct(d) => self.visit_struct_type(d),
            ast::Declaration::Mixin(_) => Err(Error::Unsupported(UnsupportedConstruct::Mixin)),
            ast::Declaration::Impl(_) => Err(Error::Unsupported(UnsupportedConstruct::ImplBlock)),
        }
    }

    /// Compile a named function declaration and bind it as a global.
    fn visit_fn(&mut self, decl: &ast::FnDeclaration) -> (r: Result<()>)
        requires
            old(self).inv(),
        ensures
            final(self).inv(),
        decreases *decl,
    {
        let function = match InstructionCompiler::new().visit_fn_trunk(self, &decl.trunk) {
            Ok(f) => f,
            Err(e) => {
                return Err(e);
            },
        };
        self.add_global(&decl.name, Constant::Function(function))
    }

    /// Record a struct declaration's descriptor.
    fn visit_struct_type(&mut self, decl: &ast::Struct) -> (r: Result<()>)
        requires
            old(self).inv(),
        ensures
            final(self).inv(),
        decreases *decl,
    {
        let name_bytes = str_to_bytes(decl.name.as_str());
        if name_bytes.len() > 65535 {
            return Err(Error::Internal(InternalError::InvalidBytecode));
        }
        let k = match self.add_constant(Constant::String(name_bytes)) {
            Ok(k) => k,
            Err(e) => {
                return Err(e);
            },
        };
        let s: Struct = match &decl.members {
            ast::StructMembers::Empty => Struct::Empty,
            ast::StructMembers::Positional(fields) => {
                if fields.len() > 65535 {
                    return Err(Error::Internal(InternalError::InvalidBytecode));
                }
                Struct::Positional(fields.len() as u16)
            },
            ast::StructMembers::Named(fields) => {
                let m = fields.len();
                if m > 65535 {
                    return Err(Error::Internal(InternalError::InvalidBytecode));
                }
                proof {
                    assert(self.as_view().constants[k as int] == crate::module::cview(
                        self.constants@[k as int],
                    ));
                }
                let mut idxs: Vec<u16> = Vec::new();
                let mut j: usize = 0;
                while j < m
                    invariant
                        0 <= j <= m,
                        m == fields@.len(),
                        m <= 65535,
                        idxs@.len() == j,
                        self.inv(),
                        resolves_to_string_v(self.as_view().constants, k as int),
                        forall|x: int|
                            0 <= x < j ==> resolves_to_string_v(
                                self.as_view().constants,
                                (#[trigger] idxs@[x]) as int,
                            ),
                    decreases m - j,
                {
                    let fb = str_to_bytes(fields[j].as_str());
                    if fb.len() > 65535 {
                        return Err(Error::Internal(InternalError::InvalidBytecode));
                    }
                    let ghost before = self.as_view().constants;
                    let fk = match self.add_constant(Constant::String(fb)) {
                        Ok(fk) => fk,
                        Err(e) => {
                            return Err(e);
                        },
                    };
                    proof {
                        assert(self.as_view().constants[fk as int] == crate::module::cview(
                            self.constants@[fk as int],
                        ));
                        assert forall|x: int| 0 <= x < j implies resolves_to_string_v(
                            self.as_view().constants,
                            (#[trigger] idxs@[x]) as int,
                        ) by {
                            assert(resolves_to_string_v(before, idxs@[x] as int));
                            assert(self.as_view().constants[idxs@[x] as int] == before[idxs@[x] as int]);
                        }
                        assert(resolves_to_string_v(self.as_view().constants, k as int)) by {
                            assert(resolves_to_string_v(before, k as int));
                            assert(self.as_view().constants[k as int] == before[k as int]);
                        }
                    }
                    idxs.push(fk);
                    j = j + 1;
                }
                Struct::Named(idxs)
            },
        };
        proof {
            assert(resolves_to_string_v(self.as_view().constants, k as int));
            match s {
                Struct::Named(ref idxs) => {
                    assert(crate::module::sview(s) == crate::module::StructV::Named(idxs@));
                },
                _ => {},
            }
            assert(struct_wf_v(self.as_view().constants, crate::module::sview(s)));
        }
        self.insert_struct_sorted(k, s)
    }
}

/// Appending a well-formed constant to a well-formed module keeps it well
/// formed: indices into the pool are stable.
proof fn lemma_wf_v_push_constant(mv: ModuleV, c: ConstantV)
    requires
        module_wf_v(mv),
        constant_wf_v(c),
        mv.constants.len() + 1 <= u16::MAX,
    ensures
        module_wf_v(
            ModuleV { constants: mv.constants.push(c), globals: mv.globals, structs: mv.structs },
        ),
{
    let cs2 = mv.constants.push(c);
    assert forall|i: int| 0 <= i < cs2.len() implies constant_wf_v(#[trigger] cs2[i]) by {
        if i < mv.constants.len() {
            assert(cs2[i] == mv.constants[i]);
        }
    }
    assert forall|i: int| 0 <= i < mv.globals.len() implies resolves_to_string_v(
        cs2,
        (#[trigger] mv.globals[i]).0 as int,
    ) by {
        assert(resolves_to_string_v(mv.constants, mv.globals[i].0 as int));
        assert(cs2[mv.globals[i].0 as int] == mv.constants[mv.globals[i].0 as int]);
    }
    assert forall|i: int| 0 <= i < mv.structs.len() implies resolves_to_string_v(
        cs2,
        (#[trigger] mv.structs[i]).0 as int,
    ) && struct_wf_v(cs2, mv.structs[i].1) by {
        assert(resolves_to_string_v(mv.constants, mv.structs[i].0 as int));
        assert(cs2[mv.structs[i].0 as int] == mv.constants[mv.structs[i].0 as int]);
        assert(struct_wf_v(mv.constants, mv.structs[i].1));
        match mv.structs[i].1 {
            crate::module::StructV::Named(fields) => {
                assert forall|j: int| 0 <= j < fields.len() implies resolves_to_string_v(
                    cs2,
                    (#[trigger] fields[j]) as int,
                ) by {
                    assert(resolves_to_string_v(mv.constants, fields[j] as int));
                    assert(cs2[fields[j] as int] == mv.constants[fields[j] as int]);
                }
            },
            _ => {},
        }
    }
}

proof fn lemma_wf_v_update_global(mv: ModuleV, i: int, p: (u16, u16))
    requires
        module_wf_v(mv),
        0 <= i < mv.globals.len(),
        resolves_to_string_v(mv.constants, p.0 as int),
        (p.1 as int) < mv.constants.len(),
    ensures
        module_wf_v(
            ModuleV {
                constants: mv.constants,
                globals: mv.globals.update(i, p),
                structs: mv.structs,
            },
        ),
{
    let gs2 = mv.globals.update(i, p);
    assert forall|j: int| 0 <= j < gs2.len() implies resolves_to_string_v(
        mv.constants,
        (#[trigger] gs2[j]).0 as int,
    ) && (gs2[j].1 as int) < mv.constants.len() by {
        if j != i {
            assert(gs2[j] == mv.globals[j]);
        }
    }
}

proof fn lemma_wf_v_insert_global(mv: ModuleV, i: int, p: (u16, u16))
    requires
        module_wf_v(mv),
        0 <= i <= mv.globals.len(),
        mv.globals.len() + 1 <= u16::MAX,
        resolves_to_string_v(mv.constants, p.0 as int),
        (p.1 as int) < mv.constants.len(),
    ensures
        module_wf_v(
            ModuleV {
                constants: mv.constants,
                globals: mv.globals.insert(i, p),
                structs: mv.structs,
            },
        ),
{
    let gs2 = mv.globals.insert(i, p);
    assert forall|j: int| 0 <= j < gs2.len() implies resolves_to_string_v(
        mv.constants,
        (#[trigger] gs2[j]).0 as int,
    ) && (gs2[j].1 as int) < mv.constants.len() by {
        if j < i {
            assert(gs2[j] == mv.globals[j]);
        } else if j == i {
            assert(gs2[j] == p);
        } else {
            assert(gs2[j] == mv.globals[j - 1]);
        }
    }
}

proof fn lemma_wf_v_update_struct(mv: ModuleV, i: int, p: (u16, crate::module::StructV))
    requires
        module_wf_v(mv),
        0 <= i < mv.structs.len(),
        resolves_to_string_v(mv.constants, p.0 as int),
        struct_wf_v(mv.constants, p.1),
    ensures
        module_wf_v(
            ModuleV {
                constants: mv.constants,
                globals: mv.globals,
                structs: mv.structs.update(i, p),
            },
        ),
{
    let ss2 = mv.structs.update(i, p);
    assert forall|j: int| 0 <= j < ss2.len() implies resolves_to_string_v(
        mv.constants,
        (#[trigger] ss2[j]).0 as int,
    ) && struct_wf_v(mv.constants, ss2[j].1) by {
        if j != i {
            assert(ss2[j] == mv.structs[j]);
        }
    }
}

proof fn lemma_wf_v_insert_struct(mv: ModuleV, i: int, p: (u16, crate::module::StructV))
    requires
        module_wf_v(mv),
        0 <= i <= mv.structs.len(),
        mv.structs.len() + 1 <= u16::MAX,
        resolves_to_string_v(mv.constants, p.0 as int),
        struct_wf_v(mv.constants, p.1),
    ensures
        module_wf_v(
            ModuleV {
                constants: mv.constants,
                globals: mv.globals,
                structs: mv.structs.insert(i, p),
            },
        ),
{
    let ss2 = mv.structs.insert(i, p);
    assert forall|j: int| 0 <= j < ss2.len() implies resolves_to_string_v(
        mv.constants,
        (#[trigger] ss2[j]).0 as int,
    ) && struct_wf_v(mv.constants, ss2[j].1) by {
        if j < i {
            assert(ss2[j] == mv.structs[j]);
        } else if j == i {
            assert(ss2[j] == p);
        } else {
            assert(ss2[j] == mv.structs[j - 1]);
        }
    }
}


// ---------------------------------------------------------------------------
// The function-level compiler
// ---------------------------------------------------------------------------

/// An entry of the instruction buffer: a realized instruction, or a
/// placeholder jump of known encoded length awaiting its offset.
#[derive(Clone, Copy, Debug, PartialEq, Eq, Structural)]
pub enum InstructionItem {
    Real(Instruction),
    Placeholder(PlaceholderKind),
}

impl InstructionItem {
    /// The realized instruction, if this is no placeholder.
    pub fn realized(self) -> (r: Option<Instruction>)
        ensures
            match r {
                Some(i) => self == InstructionItem::Real(i),
                None => self is Placeholder,
            },
    {
        match self {
            InstructionItem::Real(i) => Some(i),
            InstructionItem::Placeholder(_) => None,
        }
    }

    /// The length in bytes of this entry's encoded form; a placeholder
    /// occupies the same length as the jump that will replace it.
    pub fn encoded_len(self) -> (r: usize)
        ensures
            r as int == spec_item_len(self),
            1 <= r <= 2,
    {
        match self {
            InstructionItem::Real(i) => i.encoded_len(),
            InstructionItem::Placeholder(k) => k.encoded_len(),
        }
    }
}

/// The two shapes a placeholder jump can take.
#[derive(Clone, Copy, Debug, PartialEq, Eq, Structural)]
pub enum PlaceholderKind {
    Jump,
    JumpIf,
}

impl PlaceholderKind {
    /// The static stack effect of the jump this placeholder stands for.
    pub fn stack_effect(self) -> (r: isize)
        ensures
            self is Jump ==> r == 0,
            self is JumpIf ==> r == -1,
    {
        match self {
            PlaceholderKind::Jump => 0,
            PlaceholderKind::JumpIf => -1,
        }
    }

    /// The encoded length of the jump this placeholder stands for.
    pub fn encoded_len(self) -> (r: usize)
        ensures
            r == 2,
    {
        2
    }

    /// The realized jump of this placeholder's kind with the given offset.
    pub fn jump(self, offset: Offset) -> (r: InstructionItem)
        ensures
            r == spec_kind_jump(self, offset),
    {
        match self {
            PlaceholderKind::Jump => InstructionItem::Real(Instruction::Jump(offset)),
            PlaceholderKind::JumpIf => InstructionItem::Real(Instruction::JumpIf(offset)),
        }
    }
}

/// A reserved slot in the instruction buffer, to be patched with a jump
/// once its target is known.
#[derive(Clone, Copy, Debug, PartialEq, Eq, Structural)]
pub struct Placeholder {
    pub index: usize,
    pub kind: PlaceholderKind,
}

/// The jump bookkeeping of one enclosing `loop`: the virtual-stack depth at
/// entry, the instruction index of the loop head, and the `break` jumps to
/// patch past the loop's end.
#[derive(Debug)]
pub struct JumpTarget {
    pub depth: usize,
    pub start: usize,
    pub end_jumps: Vec<Placeholder>,
}

impl JumpTarget {
    pub fn new(depth: usize, start: usize) -> (r: JumpTarget)
        ensures
            r.depth == depth,
            r.start == start,
            r.end_jumps@.len() == 0,
    {
        JumpTarget { depth, start, end_jumps: Vec::new() }
    }

    pub fn depth(&self) -> (r: usize)
        ensures
            r == self.depth,
    {
        self.depth
    }

    pub fn start(&self) -> (r: usize)
        ensures
            r == self.start,
    {
        self.start
    }

    pub fn push_end_jump(&mut self, jump: Placeholder)
        ensures
            final(self).end_jumps@ == old(self).end_jumps@.push(jump),
            final(self).depth == old(self).depth,
            final(self).start == old(self).start,
    {
        self.end_jumps.push(jump);
    }

    /// Patch every recorded `break` jump to land at the current end of the
    /// instruction buffer.
    pub fn fill_end_jumps(self, c: &mut InstructionCompiler)
        ensures
            final(c).stack == old(c).stack,
            final(c).jump_targets == old(c).jump_targets,
            final(c).instructions@.len() == old(c).instructions@.len(),
    {
        let n = self.end_jumps.len();
        let mut i: usize = 0;
        while i < n
            invariant
                0 <= i <= n,
                n == self.end_jumps@.len(),
                c.stack == old(c).stack,
                c.jump_targets == old(c).jump_targets,
                c.instructions@.len() == old(c).instructions@.len(),
            decreases n - i,
        {
            let ph = self.end_jumps[i];
            ph.jump_fwd_to_current(c);
            i = i + 1;
        }
    }
}

/// The state carried while lowering one function body: the virtual operand
/// stack (one slot per value, named where it is a binding), the enclosing
/// loops' jump targets, and the instruction buffer.
pub struct InstructionCompiler {
    pub stack: Vec<Option<ast::Variable>>,
    pub jump_targets: Vec<JumpTarget>,
    pub instructions: Vec<InstructionItem>,
}

/// The encoded length of one buffer entry.
pub open spec fn spec_item_len(it: InstructionItem) -> int {
    match it {
        InstructionItem::Real(i) => crate::instruction::spec_encoded_len(i),
        InstructionItem::Placeholder(_) => 2,
    }
}

/// The summed encoded length of the buffer entries in `lo..hi`.
pub open spec fn spec_len_range(items: Seq<InstructionItem>, lo: int, hi: int) -> int
    decreases hi - lo,
{
    if hi <= lo {
        0
    } else {
        spec_len_range(items, lo, hi - 1) + spec_item_len(items[hi - 1])
    }
}

/// The sum as the patcher computes it: the running total stops growing
/// once it has passed the one-byte offset range.
pub open spec fn spec_capped_len_range(items: Seq<InstructionItem>, lo: int, hi: int) -> int
    decreases hi - lo,
{
    if hi <= lo {
        0
    } else {
        let s = spec_capped_len_range(items, lo, hi - 1);
        if s <= 997 {
            s + spec_item_len(items[hi - 1])
        } else {
            s
        }
    }
}

/// The capped sum equals the true byte distance, except where both lie far
/// beyond the one-byte offset range — and such an offset is rejected when
/// the body is finalized, since it exceeds 255.
pub proof fn lemma_capped_len_range(items: Seq<InstructionItem>, lo: int, hi: int)
    requires
        lo <= hi <= items.len(),
    ensures
        spec_capped_len_range(items, lo, hi) == spec_len_range(items, lo, hi)
            || spec_capped_len_range(items, lo, hi) >= 998,
    decreases hi - lo,
{
    if hi > lo {
        lemma_capped_len_range(items, lo, hi - 1);
    }
}

/// The realized jump a placeholder kind patches to.
pub open spec fn spec_kind_jump(kind: PlaceholderKind, off: Offset) -> InstructionItem {
    match kind {
        PlaceholderKind::Jump => InstructionItem::Real(Instruction::Jump(off)),
        PlaceholderKind::JumpIf => InstructionItem::Real(Instruction::JumpIf(off)),
    }
}

/// The binding a name resolves to on the virtual stack: the topmost slot
/// holding a variable of that name, with its absolute index.
pub open spec fn spec_resolve(
    stack: Seq<Option<ast::Variable>>,
    name: Seq<char>,
) -> Option<(int, ast::Variable)>
    decreases stack.len(),
{
    if stack.len() == 0 {
        Option::None
    } else {
        match stack.last() {
            Option::Some(v) => if v.name@ == name {
                Option::Some((stack.len() - 1, v))
            } else {
                spec_resolve(stack.drop_last(), name)
            },
            Option::None => spec_resolve(stack.drop_last(), name),
        }
    }
}

/// The virtual stack after one buffer entry is appended: `None` when the
/// entry's stack effect cannot be applied (too few slots, or a placeholder
/// appended directly). A load pushes one anonymous slot; a store, pop or
/// conditional jump removes the top; `PopScope(d)` keeps the slots below
/// depth `d` and the top; `Call(a)` removes the arguments.
pub open spec fn spec_apply_item(
    stack: Seq<Option<ast::Variable>>,
    item: InstructionItem,
) -> Option<Seq<Option<ast::Variable>>> {
    match item {
        InstructionItem::Real(ins) => match ins {
            Instruction::Constant(_) | Instruction::InlineConstant(_)
                | Instruction::LoadLocal(_) | Instruction::LoadNamed(_)
                | Instruction::LoadPositionalField(_) | Instruction::LoadNamedField(_) => {
                Option::Some(stack.push(Option::None))
            },
            Instruction::Unary(_) | Instruction::Jump(_) => Option::Some(stack),
            Instruction::Binary(_) | Instruction::StoreLocal(_) | Instruction::StoreNamed(_)
                | Instruction::StorePositionalField(_) | Instruction::StoreNamedField(_)
                | Instruction::Pop | Instruction::Return | Instruction::JumpIf(_) => {
                if stack.len() >= 1 {
                    Option::Some(stack.drop_last())
                } else {
                    Option::None
                }
            },
            Instruction::PopScope(d) => if d + 1 <= stack.len() {
                Option::Some(stack.subrange(0, d as int).push(stack.last()))
            } else {
                Option::None
            },
            Instruction::Call(a) => if a <= stack.len() {
                Option::Some(stack.subrange(0, stack.len() - a))
            } else {
                Option::None
            },
        },
        InstructionItem::Placeholder(_) => Option::None,
    }
}

impl Placeholder {
    /// Patch this placeholder with a forward jump to the current end of the
    /// buffer: slot `index` now holds the realized jump whose offset is the
    /// byte distance from just after the jump over every intervening entry,
    /// and no other slot changes. A slot beyond the buffer leaves it
    /// untouched (the surviving placeholder is rejected at finalization).
    pub fn jump_fwd_to_current(self, c: &mut InstructionCompiler)
        ensures
            final(c).stack == old(c).stack,
            final(c).jump_targets == old(c).jump_targets,
            final(c).instructions@.len() == old(c).instructions@.len(),
            self.index < old(c).instructions@.len() ==> final(c).instructions@
                == old(c).instructions@.update(
                self.index as int,
                spec_kind_jump(
                    self.kind,
                    Offset::Forward(
                        spec_capped_len_range(
                            old(c).instructions@,
                            self.index + 1,
                            old(c).instructions@.len() as int,
                        ) as usize,
                    ),
                ),
            ),
            self.index >= old(c).instructions@.len() ==> final(c).instructions@
                == old(c).instructions@,
    {
        if self.index >= c.instructions.len() {
            return;
        }
        let off = c.encoded_len_range(self.index + 1, c.instructions.len());
        c.instructions[self.index] = self.kind.jump(Offset::Forward(off));
    }

    /// Patch this placeholder with a backward jump to the entry at
    /// `to_index`: slot `index` now holds the realized jump whose offset is
    /// the byte distance from just after the jump back over every entry
    /// from `to_index` up to and including the jump itself, and no other
    /// slot changes.
    pub fn jump_back_to_index(self, c: &mut InstructionCompiler, to_index: usize)
        ensures
            final(c).stack == old(c).stack,
            final(c).jump_targets == old(c).jump_targets,
            final(c).instructions@.len() == old(c).instructions@.len(),
            (self.index < old(c).instructions@.len() && to_index <= self.index)
                ==> final(c).instructions@ == old(c).instructions@.update(
                self.index as int,
                spec_kind_jump(
                    self.kind,
                    Offset::Backward(
                        spec_capped_len_range(
                            old(c).instructions@,
                            to_index as int,
                            self.index + 1,
                        ) as usize,
                    ),
                ),
            ),
            (self.index >= old(c).instructions@.len() || to_index > self.index)
                ==> final(c).instructions@ == old(c).instructions@,
    {
        if self.index >= c.instructions.len() || to_index > self.index {
            return;
        }
        let off = c.encoded_len_range(to_index, self.index + 1);
        c.instructions[self.index] = self.kind.jump(Offset::Backward(off));
    }
}

impl InstructionCompiler {
    pub fn new() -> (r: InstructionCompiler)
        ensures
            r.stack@.len() == 0,
            r.jump_targets@.len() == 0,
            r.instructions@.len() == 0,
    {
        InstructionCompiler {
            stack: Vec::new(),
            jump_targets: Vec::new(),
            instructions: Vec::new(),
        }
    }

    /// The summed encoded length of the buffer entries in `lo..hi`, capped
    /// once it passes the one-byte offset range: by
    /// `lemma_capped_len_range` the result is the true byte distance, or
    /// both lie above 255 and the jump is rejected at finalization.
    fn encoded_len_range(&self, lo: usize, hi: usize) -> (r: usize)
        requires
            lo <= hi <= self.instructions@.len(),
        ensures
            r as int == spec_capped_len_range(self.instructions@, lo as int, hi as int),
    {
        let mut sum: usize = 0;
        let mut i = lo;
        while i < hi
            invariant
                lo <= i <= hi,
                hi <= self.instructions@.len(),
                sum <= 1000,
                sum as int == spec_capped_len_range(self.instructions@, lo as int, i as int),
            decreases hi - i,
        {
            if sum <= 997 {
                sum = sum + self.instructions[i].encoded_len();
            }
            i = i + 1;
        }
        sum
    }

    /// Append an entry, applying its stack effect to the virtual stack:
    /// success exactly when the effect applies, and then the entry stands
    /// at the end of the buffer.
    fn push_item(&mut self, item: InstructionItem) -> (r: Result<()>)
        ensures
            final(self).jump_targets == old(self).jump_targets,
            match r {
                Ok(()) => {
                    &&& final(self).instructions@ == old(self).instructions@.push(item)
                    &&& spec_apply_item(old(self).stack@, item) == Option::Some(
                        final(self).stack@,
                    )
                },
                Err(e) => {
                    &&& e == Error::Internal(InternalError::InvalidStackEffect)
                    &&& spec_apply_item(old(self).stack@, item) is None
                    &&& *final(self) == *old(self)
                },
            },
    {
        match item {
            InstructionItem::Real(ins) => match ins {
                Instruction::Constant(_) | Instruction::InlineConstant(_)
                    | Instruction::LoadLocal(_) | Instruction::LoadNamed(_)
                    | Instruction::LoadPositionalField(_) | Instruction::LoadNamedField(_) => {
                    self.stack.push(None);
                },
                Instruction::Unary(_) | Instruction::Jump(_) => (),
                Instruction::Binary(_) | Instruction::StoreLocal(_) | Instruction::StoreNamed(_)
                    | Instruction::StorePositionalField(_) | Instruction::StoreNamedField(_)
                    | Instruction::Pop | Instruction::Return | Instruction::JumpIf(_) => {
                    if self.stack.len() < 1 {
                        return Err(Error::Internal(InternalError::InvalidStackEffect));
                    }
                    let _ = self.stack.pop();
                },
                Instruction::PopScope(depth) => {
                    let n = self.stack.len();
                    if n < 1 || depth > n - 1 {
                        return Err(Error::Internal(InternalError::InvalidStackEffect));
                    }
                    let top = match self.stack.pop() {
                        Some(t) => t,
                        None => {
                            return Err(Error::Internal(InternalError::InvalidStackEffect));
                        },
                    };
                    self.stack.truncate(depth);
                    self.stack.push(top);
                    proof {
                        assert(self.stack@ =~= old(self).stack@.subrange(0, depth as int).push(
                            old(self).stack@.last(),
                        ));
                    }
                },
                Instruction::Call(arity) => {
                    if self.stack.len() < arity {
                        return Err(Error::Internal(InternalError::InvalidStackEffect));
                    }
                    let keep = self.stack.len() - arity;
                    self.stack.truncate(keep);
                    proof {
                        assert(self.stack@ =~= old(self).stack@.subrange(
                            0,
                            old(self).stack@.len() - arity,
                        ));
                    }
                },
            },
            InstructionItem::Placeholder(_) => {
                return Err(Error::Internal(InternalError::InvalidStackEffect));
            },
        }
        self.instructions.push(item);
        Ok(())
    }

    /// Reserve a placeholder jump, applying its stack effect: the
    /// placeholder names the slot appended at the end of the buffer; a
    /// conditional jump removes the top slot, and fails on an empty stack.
    fn push_placeholder(&mut self, kind: PlaceholderKind) -> (r: Result<Placeholder>)
        ensures
            final(self).jump_targets == old(self).jump_targets,
            match r {
                Ok(p) => {
                    &&& p == Placeholder {
                        index: old(self).instructions@.len() as usize,
                        kind,
                    }
                    &&& final(self).instructions@ == old(self).instructions@.push(
                        InstructionItem::Placeholder(kind),
                    )
                    &&& (kind is Jump ==> final(self).stack@ == old(self).stack@)
                    &&& (kind is JumpIf ==> old(self).stack@.len() >= 1 && final(self).stack@
                        == old(self).stack@.drop_last())
                },
                Err(e) => {
                    &&& e == Error::Internal(InternalError::InvalidStackEffect)
                    &&& kind is JumpIf && old(self).stack@.len() == 0
                    &&& *final(self) == *old(self)
                },
            },
    {
        match kind {
            PlaceholderKind::Jump => (),
            PlaceholderKind::JumpIf => {
                if self.stack.len() < 1 {
                    return Err(Error::Internal(InternalError::InvalidStackEffect));
                }
                let _ = self.stack.pop();
            },
        }
        let index = self.instructions.len();
        self.instructions.push(InstructionItem::Placeholder(kind));
        Ok(Placeholder { index, kind })
    }

    /// Resolve a name against the virtual stack, topmost binding first.
    fn find_local(&self, name: &String) -> (r: Option<(usize, ast::Variable)>)
        ensures
            match r {
                Some((i, v)) => i < self.stack@.len() && spec_resolve(self.stack@, name@)
                    == Option::Some((i as int, v)),
                None => spec_resolve(self.stack@, name@) is None,
            },
    {
        let n = self.stack.len();
        proof {
            assert(self.stack@.subrange(0, n as int) =~= self.stack@);
        }
        let mut i = n;
        while i > 0
            invariant
                0 <= i <= n,
                n == self.stack@.len(),
                spec_resolve(self.stack@, name@) == spec_resolve(
                    self.stack@.subrange(0, i as int),
                    name@,
                ),
            decreases i,
        {
            proof {
                assert(self.stack@.subrange(0, i as int).drop_last() =~= self.stack@.subrange(
                    0,
                    i as int - 1,
                ));
                assert(self.stack@.subrange(0, i as int).last() == self.stack@[i - 1]);
            }
            i = i - 1;
            match &self.stack[i] {
                Some(var) => {
                    if var.name == *name {
                        let found = ast::Variable { mutable: var.mutable, name: var.name.clone() };
                        proof {
                            assert(found == self.stack@[i as int]->Some_0);
                        }
                        return Some((i, found));
                    }
                },
                None => (),
            }
        }
        proof {
            assert(self.stack@.subrange(0, 0) =~= Seq::<Option<ast::Variable>>::empty());
        }
        None
    }

    /// Lower a function's parameters and body and finalize the result: all
    /// placeholders must have been patched, every parameter and jump must
    /// fit its one-byte encoding, the body must fit the format's 16-bit
    /// length, and the encoded body must pass the stack-effect and
    /// jump-validity check.
    pub fn visit_fn_trunk(self, pool: &mut Compiler, trunk: &ast::FnTrunk) -> (r: Result<Function>)
        requires
            old(pool).inv(),
        ensures
            final(pool).inv(),
            match r {
                Ok(f) => {
                    &&& f.body@.len() <= u16::MAX
                    &&& f.arity as int == trunk.formal_parameters@.len()
                    &&& checked_function(f.arity as int, f.body@)
                    &&& spec_well_encoded(f.body@)
                },
                Err(_) => true,
            },
        decreases *trunk,
    {
        let mut me = self;
        let np = trunk.formal_parameters.len();
        if np > 65535 {
            return Err(Error::Internal(InternalError::InvalidBytecode));
        }
        let mut i: usize = 0;
        while i < np
            invariant
                0 <= i <= np,
                np == trunk.formal_parameters@.len(),
                pool.inv(),
            decreases np - i,
        {
            me.stack.push(Some(trunk.formal_parameters[i].clone()));
            i = i + 1;
        }
        match me.visit_block(pool, &trunk.body) {
            Ok(()) => (),
            Err(e) => {
                return Err(e);
            },
        }

        let n = me.instructions.len();
        let mut bytes: Vec<u8> = Vec::new();
        let ghost mut done: Seq<Instruction> = Seq::empty();
        proof {
            assert(spec_encode_list(done) == Seq::<u8>::empty());
            assert(bytes@ =~= spec_encode_list(done));
        }
        let mut i: usize = 0;
        while i < n
            invariant
                0 <= i <= n,
                n == me.instructions@.len(),
                bytes@.len() <= 2 * i,
                pool.inv(),
                bytes@ == spec_encode_list(done),
                forall|j: int|
                    0 <= j < done.len() ==> crate::instruction::spec_param_ok(#[trigger] done[j]),
            decreases n - i,
        {
            match me.instructions[i] {
                InstructionItem::Real(ins) => {
                    if !ins.params_fit() {
                        return Err(Error::Internal(InternalError::InvalidBytecode));
                    }
                    if bytes.len() > 65535 {
                        return Err(Error::Internal(InternalError::InvalidBytecode));
                    }
                    ins.encode_into(&mut bytes);
                    proof {
                        assert(bytes@.len() <= 2 * (i + 1));
                        lemma_encode_list_push(done, ins);
                        done = done.push(ins);
                    }
                },
                InstructionItem::Placeholder(_) => {
                    return Err(Error::Internal(InternalError::InvalidBytecode));
                },
            }
            i = i + 1;
        }
        if bytes.len() > 65535 {
            return Err(Error::Internal(InternalError::InvalidBytecode));
        }
        proof {
            assert(spec_encodes_list(bytes@, done));
        }
        let arity = np as u16;
        let map = match propose_depth_map(arity, &bytes) {
            Some(map) => map,
            None => {
                return Err(Error::Internal(InternalError::InvalidStackEffect));
            },
        };
        if !validate_depth_map(arity, &bytes, &map) {
            return Err(Error::Internal(InternalError::InvalidStackEffect));
        }
        Ok(Function::new(arity, bytes))
    }

    fn visit_statement(&mut self, pool: &mut Compiler, stmt: &ast::Statement) -> (r: Result<()>)
        requires
            old(pool).inv(),
        ensures
            final(pool).inv(),
        decreases *stmt,
    {
        match stmt {
            ast::Statement::Declaration(_) => Err(
                Error::Unsupported(UnsupportedConstruct::NestedDeclaration),
            ),
            ast::Statement::Expression(expr) => {
                match self.visit_expression(pool, expr) {
                    Ok(()) => (),
                    Err(e) => {
                        return Err(e);
                    },
                }
                self.push_item(InstructionItem::Real(Instruction::Pop))
            },
            ast::Statement::Jump(stmt) => self.visit_jump(pool, stmt),
            ast::Statement::VariableDeclaration(stmt) => self.visit_variable_declaration(
                pool,
                stmt,
            ),
            ast::Statement::Assignment(stmt) => self.visit_assignment(pool, stmt),
        }
    }

    fn visit_jump(&mut self, pool: &mut Compiler, stmt: &ast::Jump) -> (r: Result<()>)
        requires
            old(pool).inv(),
        ensures
            final(pool).inv(),
            (!(*stmt is Return) && old(self).jump_targets@.len() == 0) ==> r == Err::<(), Error>(
                Error::NoLoopToExit,
            ) && *final(self) == *old(self) && *final(pool) == *old(pool),
        decreases *stmt,
    {
        match stmt {
            ast::Jump::Return(expr) => {
                match expr {
                    Some(e) => match self.visit_expression(pool, e) {
                        Ok(()) => (),
                        Err(err) => {
                            return Err(err);
                        },
                    },
                    None => match self.push_item(
                        InstructionItem::Real(
                            Instruction::InlineConstant(InlineConstant::Unit),
                        ),
                    ) {
                        Ok(()) => (),
                        Err(err) => {
                            return Err(err);
                        },
                    },
                }
                self.push_item(InstructionItem::Real(Instruction::Return))
            },
            ast::Jump::Break(expr) => {
                let nt = self.jump_targets.len();
                if nt == 0 {
                    return Err(Error::NoLoopToExit);
                }
                let depth = self.jump_targets[nt - 1].depth;
                match expr {
                    Some(e) => match self.visit_expression(pool, e) {
                        Ok(()) => (),
                        Err(err) => {
                            return Err(err);
                        },
                    },
                    None => match self.push_item(
                        InstructionItem::Real(
                            Instruction::InlineConstant(InlineConstant::Unit),
                        ),
                    ) {
                        Ok(()) => (),
                        Err(err) => {
                            return Err(err);
                        },
                    },
                }
                match self.push_item(InstructionItem::Real(Instruction::PopScope(depth))) {
                    Ok(()) => (),
                    Err(err) => {
                        return Err(err);
                    },
                }
                let jump = match self.push_placeholder(PlaceholderKind::Jump) {
                    Ok(p) => p,
                    Err(err) => {
                        return Err(err);
                    },
                };
                let mut jt = match self.jump_targets.pop() {
                    Some(jt) => jt,
                    None => {
                        return Err(Error::Internal(InternalError::InvalidStackEffect));
                    },
                };
                jt.push_end_jump(jump);
                self.jump_targets.push(jt);
                // break leaves no value at its own program point: cancel
                // the push that lowering its expression recorded
                if self.stack.len() < 1 {
                    return Err(Error::Internal(InternalError::InvalidStackEffect));
                }
                let _ = self.stack.pop();
                Ok(())
            },
            ast::Jump::Continue => {
                let nt = self.jump_targets.len();
                if nt == 0 {
                    return Err(Error::NoLoopToExit);
                }
                let depth = self.jump_targets[nt - 1].depth;
                let start = self.jump_targets[nt - 1].start;
                match self.push_item(
                    InstructionItem::Real(Instruction::InlineConstant(InlineConstant::Unit)),
                ) {
                    Ok(()) => (),
                    Err(err) => {
                        return Err(err);
                    },
                }
                match self.push_item(InstructionItem::Real(Instruction::PopScope(depth))) {
                    Ok(()) => (),
                    Err(err) => {
                        return Err(err);
                    },
                }
                match self.push_item(InstructionItem::Real(Instruction::Pop)) {
                    Ok(()) => (),
                    Err(err) => {
                        return Err(err);
                    },
                }
                let ph = match self.push_placeholder(PlaceholderKind::Jump) {
                    Ok(p) => p,
                    Err(err) => {
                        return Err(err);
                    },
                };
                ph.jump_back_to_index(self, start);
                Ok(())
            },
        }
    }

    fn visit_variable_declaration(
        &mut self,
        pool: &mut Compiler,
        stmt: &ast::VariableDeclaration,
    ) -> (r: Result<()>)
        requires
            old(pool).inv(),
        ensures
            final(pool).inv(),
        decreases *stmt,
    {
        match &stmt.initializer {
            Some(e) => match self.visit_expression(pool, e) {
                Ok(()) => (),
                Err(err) => {
                    return Err(err);
                },
            },
            None => match self.push_item(
                InstructionItem::Real(Instruction::InlineConstant(InlineConstant::Unit)),
            ) {
                Ok(()) => (),
                Err(err) => {
                    return Err(err);
                },
            },
        }
        let n = self.stack.len();
        if n == 0 {
            return Err(Error::Internal(InternalError::InvalidStackEffect));
        }
        self.stack[n - 1] = Some(stmt.variable.clone());
        Ok(())
    }

    fn visit_assignment(&mut self, pool: &mut Compiler, stmt: &ast::Assignment) -> (r: Result<()>)
        requires
            old(pool).inv(),
        ensures
            final(pool).inv(),
            !(stmt.left is Identifier) ==> r == Err::<(), Error>(Error::InvalidAssignmentTarget)
                && *final(self) == *old(self) && *final(pool) == *old(pool),
        decreases *stmt,
    {
        let name = match &stmt.left {
            ast::Expression::Identifier(name) => name,
            _ => {
                return Err(Error::InvalidAssignmentTarget);
            },
        };
        match self.visit_expression(pool, &stmt.right) {
            Ok(()) => (),
            Err(err) => {
                return Err(err);
            },
        }
        match self.find_local(name) {
            Some((local, var)) => {
                if !var.mutable {
                    return Err(Error::ImmutableVariable);
                }
                self.push_item(InstructionItem::Real(Instruction::StoreLocal(local)))
            },
            None => {
                let k = match intern_name(pool, name) {
                    Ok(k) => k,
                    Err(err) => {
                        return Err(err);
                    },
                };
                self.push_item(InstructionItem::Real(Instruction::StoreNamed(k as usize)))
            },
        }
    }

    fn visit_expression(&mut self, pool: &mut Compiler, expr: &ast::Expression) -> (r: Result<()>)
        requires
            old(pool).inv(),
        ensures
            final(pool).inv(),
        decreases *expr,
    {
        match expr {
            ast::Expression::Number(literal) => self.visit_number(pool, literal),
            ast::Expression::Bool(value) => self.push_item(
                InstructionItem::Real(Instruction::InlineConstant(InlineConstant::Bool(*value))),
            ),
            ast::Expression::String(literal) => self.visit_string(pool, literal),
            ast::Expression::Identifier(name) => self.visit_identifier(pool, name),
            ast::Expression::Binary(e) => {
                match self.visit_expression(pool, &e.left) {
                    Ok(()) => (),
                    Err(err) => {
                        return Err(err);
                    },
                }
                match self.visit_expression(pool, &e.right) {
                    Ok(()) => (),
                    Err(err) => {
                        return Err(err);
                    },
                }
                self.push_item(InstructionItem::Real(Instruction::Binary(e.operator)))
            },
            ast::Expression::Unary(e) => {
                match self.visit_expression(pool, &e.right) {
                    Ok(()) => (),
                    Err(err) => {
                        return Err(err);
                    },
                }
                self.push_item(InstructionItem::Real(Instruction::Unary(e.operator)))
            },
            ast::Expression::Call(e) => self.visit_call(pool, e),
            ast::Expression::Block(e) => self.visit_block(pool, e),
            ast::Expression::Fn(e) => {
                let function = match InstructionCompiler::new().visit_fn_trunk(pool, &e.trunk) {
                    Ok(f) => f,
                    Err(err) => {
                        return Err(err);
                    },
                };
                let k = match pool.add_constant(Constant::Function(function)) {
                    Ok(k) => k,
                    Err(err) => {
                        return Err(err);
                    },
                };
                self.push_item(InstructionItem::Real(Instruction::Constant(k as usize)))
            },
            ast::Expression::If(e) => self.visit_if(pool, e),
            ast::Expression::Loop(e) => self.visit_loop(pool, e),
        }
    }

    /// Lower a numeric literal: intern its canonical decimal text and load
    /// it. The literal's failure to parse is exactly the invalid-number
    /// error; a canonical text over the 16-bit length or a full pool is an
    /// encoding fault.
    fn visit_number(&mut self, pool: &mut Compiler, literal: &String) -> (r: Result<()>)
        requires
            old(pool).inv(),
        ensures
            final(pool).inv(),
            final(self).jump_targets == old(self).jump_targets,
            match r {
                Ok(()) => {
                    &&& crate::number::num_canon(crate::strings::utf8_bytes_of(literal@)) is Some
                    &&& final(self).stack@ == old(self).stack@.push(Option::None)
                    &&& exists|k: u16|
                        {
                            &&& (k as int) < final(pool).constants@.len()
                            &&& #[trigger] crate::module::cview(final(pool).constants@[k as int])
                                == crate::module::ConstantV::Number(
                                crate::number::num_canon(
                                    crate::strings::utf8_bytes_of(literal@),
                                ).unwrap(),
                            )
                            &&& final(self).instructions@ == old(self).instructions@.push(
                                InstructionItem::Real(Instruction::Constant(k as usize)),
                            )
                        }
                },
                Err(e) => {
                    &&& *final(self) == *old(self)
                    &&& (crate::number::num_canon(crate::strings::utf8_bytes_of(literal@)) is None
                        <==> e == Error::Internal(InternalError::InvalidNumberLiteral))
                    &&& (crate::number::num_canon(crate::strings::utf8_bytes_of(literal@)) is Some
                        ==> e == Error::Internal(InternalError::InvalidBytecode))
                },
            },
    {
        let bytes = str_to_bytes(literal.as_str());
        let canon = match num_canon_bytes(&bytes) {
            Some(c) => c,
            None => {
                return Err(Error::Internal(InternalError::InvalidNumberLiteral));
            },
        };
        if canon.len() > 65535 {
            return Err(Error::Internal(InternalError::InvalidBytecode));
        }
        let ghost cb = canon@;
        let k = match pool.add_constant(Constant::Number(canon)) {
            Ok(k) => k,
            Err(err) => {
                return Err(err);
            },
        };
        proof {
            match pool.constants@[k as int] {
                Constant::Number(s) => {
                    assert(s@ == cb);
                },
                _ => {
                    assert(false);
                },
            }
            assert(crate::module::cview(pool.constants@[k as int])
                == crate::module::ConstantV::Number(cb));
            assert(cb == crate::number::num_canon(
                crate::strings::utf8_bytes_of(literal@),
            ).unwrap());
        }
        self.push_item(InstructionItem::Real(Instruction::Constant(k as usize)))
    }

    /// Lower a string literal: resolve its escapes, intern the resulting
    /// string and load it. A malformed literal is exactly the
    /// invalid-string error, carrying the escape fault.
    fn visit_string(&mut self, pool: &mut Compiler, literal: &String) -> (r: Result<()>)
        requires
            old(pool).inv(),
        ensures
            final(pool).inv(),
            final(self).jump_targets == old(self).jump_targets,
            match r {
                Ok(()) => {
                    &&& crate::strings::spec_unescape(
                        crate::strings::utf8_bytes_of(literal@),
                    ) is Ok
                    &&& final(self).stack@ == old(self).stack@.push(Option::None)
                    &&& exists|k: u16|
                        {
                            &&& (k as int) < final(pool).constants@.len()
                            &&& #[trigger] crate::module::cview(final(pool).constants@[k as int])
                                == crate::module::ConstantV::String(
                                crate::strings::spec_unescape(
                                    crate::strings::utf8_bytes_of(literal@),
                                ).unwrap(),
                            )
                            &&& final(self).instructions@ == old(self).instructions@.push(
                                InstructionItem::Real(Instruction::Constant(k as usize)),
                            )
                        }
                },
                Err(e) => {
                    &&& *final(self) == *old(self)
                    &&& (match crate::strings::spec_unescape(
                        crate::strings::utf8_bytes_of(literal@),
                    ) {
                        Err(pe) => e == Error::Internal(InternalError::InvalidStringLiteral(pe)),
                        Ok(_) => e == Error::Internal(InternalError::InvalidBytecode),
                    })
                },
            },
    {
        let bytes = str_to_bytes(literal.as_str());
        let unescaped = match string_from_literal(&bytes) {
            Ok(u) => u,
            Err(e) => {
                return Err(Error::Internal(InternalError::InvalidStringLiteral(e)));
            },
        };
        if !utf8_check(&unescaped) {
            return Err(Error::Internal(InternalError::InvalidBytecode));
        }
        if unescaped.len() > 65535 {
            return Err(Error::Internal(InternalError::InvalidBytecode));
        }
        let ghost ub = unescaped@;
        let k = match pool.add_constant(Constant::String(unescaped)) {
            Ok(k) => k,
            Err(err) => {
                return Err(err);
            },
        };
        proof {
            match pool.constants@[k as int] {
                Constant::String(s) => {
                    assert(s@ == ub);
                },
                _ => {
                    assert(false);
                },
            }
            assert(crate::module::cview(pool.constants@[k as int])
                == crate::module::ConstantV::String(ub));
            assert(ub == crate::strings::spec_unescape(
                crate::strings::utf8_bytes_of(literal@),
            ).unwrap());
        }
        self.push_item(InstructionItem::Real(Instruction::Constant(k as usize)))
    }

    /// Lower a use of a name: a load of the topmost matching local slot
    /// where one exists, else a load of the interned global name.
    fn visit_identifier(&mut self, pool: &mut Compiler, name: &String) -> (r: Result<()>)
        requires
            old(pool).inv(),
        ensures
            final(pool).inv(),
            final(self).jump_targets == old(self).jump_targets,
            match r {
                Ok(()) => {
                    &&& final(self).stack@ == old(self).stack@.push(Option::None)
                    &&& match spec_resolve(old(self).stack@, name@) {
                        Option::Some((i, _)) => *final(pool) == *old(pool)
                            && final(self).instructions@ == old(self).instructions@.push(
                            InstructionItem::Real(Instruction::LoadLocal(i as usize)),
                        ),
                        Option::None => exists|k: u16|
                            {
                                &&& (k as int) < final(pool).constants@.len()
                                &&& #[trigger] crate::module::cview(
                                    final(pool).constants@[k as int],
                                ) == crate::module::ConstantV::String(
                                    crate::strings::utf8_bytes_of(name@),
                                )
                                &&& final(self).instructions@ == old(self).instructions@.push(
                                    InstructionItem::Real(Instruction::LoadNamed(k as usize)),
                                )
                            },
                    }
                },
                Err(e) => {
                    &&& *final(self) == *old(self)
                    &&& e == Error::Internal(InternalError::InvalidBytecode)
                    &&& spec_resolve(old(self).stack@, name@) is None
                },
            },
    {
        match self.find_local(name) {
            Some((local, _)) => self.push_item(
                InstructionItem::Real(Instruction::LoadLocal(local)),
            ),
            None => {
                let k = match intern_name(pool, name) {
                    Ok(k) => k,
                    Err(err) => {
                        return Err(err);
                    },
                };
                self.push_item(InstructionItem::Real(Instruction::LoadNamed(k as usize)))
            },
        }
    }

    fn visit_call(&mut self, pool: &mut Compiler, call: &ast::Call) -> (r: Result<()>)
        requires
            old(pool).inv(),
        ensures
            final(pool).inv(),
        decreases *call,
    {
        match self.visit_expression(pool, &call.function) {
            Ok(()) => (),
            Err(err) => {
                return Err(err);
            },
        }
        let arity = call.actual_parameters.len();
        let mut i: usize = 0;
        while i < arity
            invariant
                0 <= i <= arity,
                arity == call.actual_parameters@.len(),
                pool.inv(),
            decreases arity - i,
        {
            match self.visit_expression(pool, &call.actual_parameters[i]) {
                Ok(()) => (),
                Err(err) => {
                    return Err(err);
                },
            }
            i = i + 1;
        }
        self.push_item(InstructionItem::Real(Instruction::Call(arity)))
    }

    fn visit_block(&mut self, pool: &mut Compiler, block: &ast::Block) -> (r: Result<()>)
        requires
            old(pool).inv(),
        ensures
            final(pool).inv(),
        decreases *block,
    {
        let depth = self.stack.len();
        let mut locals: usize = 0;
        let ns = block.statements.len();
        let mut i: usize = 0;
        while i < ns
            invariant
                0 <= i <= ns,
                ns == block.statements@.len(),
                locals <= i,
                pool.inv(),
            decreases ns - i,
        {
            match &block.statements[i] {
                ast::Statement::VariableDeclaration(_) => {
                    locals = locals + 1;
                },
                _ => (),
            }
            match self.visit_statement(pool, &block.statements[i]) {
                Ok(()) => (),
                Err(err) => {
                    return Err(err);
                },
            }
            i = i + 1;
        }
        match &block.expression {
            Some(e) => match self.visit_expression(pool, e) {
                Ok(()) => (),
                Err(err) => {
                    return Err(err);
                },
            },
            None => match self.push_item(
                InstructionItem::Real(Instruction::InlineConstant(InlineConstant::Unit)),
            ) {
                Ok(()) => (),
                Err(err) => {
                    return Err(err);
                },
            },
        }
        // the block must have grown the stack by its locals plus one
        // result; the locals must all be named and the result anonymous
        let sl = self.stack.len();
        if sl < 1 || sl - 1 < depth || sl - 1 - depth != locals {
            return Err(Error::Internal(InternalError::InvalidStackEffect));
        }
        let mut j = depth;
        while j < sl - 1
            invariant
                depth <= j <= sl - 1,
                sl == self.stack@.len(),
                sl >= 1,
                pool.inv(),
            decreases sl - 1 - j,
        {
            match &self.stack[j] {
                Some(_) => (),
                None => {
                    return Err(Error::Internal(InternalError::InvalidStackEffect));
                },
            }
            j = j + 1;
        }
        match &self.stack[sl - 1] {
            Some(_) => {
                return Err(Error::Internal(InternalError::InvalidStackEffect));
            },
            None => (),
        }
        self.push_item(InstructionItem::Real(Instruction::PopScope(depth)))
    }

    fn visit_if(&mut self, pool: &mut Compiler, e: &ast::If) -> (r: Result<()>)
        requires
            old(pool).inv(),
        ensures
            final(pool).inv(),
        decreases *e,
    {
        let mut end_jumps: Vec<Placeholder> = Vec::new();
        let nb = e.then_branches.len();
        let mut i: usize = 0;
        while i < nb
            invariant
                0 <= i <= nb,
                nb == e.then_branches@.len(),
                pool.inv(),
            decreases nb - i,
        {
            match self.visit_expression(pool, &e.then_branches[i].0) {
                Ok(()) => (),
                Err(err) => {
                    return Err(err);
                },
            }
            match self.push_item(
                InstructionItem::Real(Instruction::Unary(ast::UnaryOperator::Not)),
            ) {
                Ok(()) => (),
                Err(err) => {
                    return Err(err);
                },
            }
            let cond = match self.push_placeholder(PlaceholderKind::JumpIf) {
                Ok(p) => p,
                Err(err) => {
                    return Err(err);
                },
            };
            let depth = self.stack.len();
            match self.visit_block(pool, &e.then_branches[i].1) {
                Ok(()) => (),
                Err(err) => {
                    return Err(err);
                },
            }
            let ph = match self.push_placeholder(PlaceholderKind::Jump) {
                Ok(p) => p,
                Err(err) => {
                    return Err(err);
                },
            };
            end_jumps.push(ph);
            cond.jump_fwd_to_current(self);
            // only one branch is taken at runtime: the arm's result is not
            // really still on the stack after the whole chain
            let sl = self.stack.len();
            if !(sl >= 1 && sl - 1 == depth) {
                return Err(Error::Internal(InternalError::InvalidStackEffect));
            }
            let _ = self.stack.pop();
            i = i + 1;
        }
        match &e.else_branch {
            Some(b) => match self.visit_block(pool, b) {
                Ok(()) => (),
                Err(err) => {
                    return Err(err);
                },
            },
            None => match self.push_item(
                InstructionItem::Real(Instruction::InlineConstant(InlineConstant::Unit)),
            ) {
                Ok(()) => (),
                Err(err) => {
                    return Err(err);
                },
            },
        }
        let nj = end_jumps.len();
        let mut j: usize = 0;
        while j < nj
            invariant
                0 <= j <= nj,
                nj == end_jumps@.len(),
                pool.inv(),
            decreases nj - j,
        {
            let ph = end_jumps[j];
            ph.jump_fwd_to_current(self);
            j = j + 1;
        }
        Ok(())
    }

    fn visit_loop(&mut self, pool: &mut Compiler, e: &ast::Loop) -> (r: Result<()>)
        requires
            old(pool).inv(),
        ensures
            final(pool).inv(),
        decreases *e,
    {
        let depth = self.stack.len();
        let start = self.instructions.len();
        self.jump_targets.push(JumpTarget::new(depth, start));
        match self.visit_block(pool, &e.body) {
            Ok(()) => (),
            Err(err) => {
                return Err(err);
            },
        }
        match self.push_item(InstructionItem::Real(Instruction::Pop)) {
            Ok(()) => (),
            Err(err) => {
                return Err(err);
            },
        }
        let ph = match self.push_placeholder(PlaceholderKind::Jump) {
            Ok(p) => p,
            Err(err) => {
                return Err(err);
            },
        };
        ph.jump_back_to_index(self, start);
        let jt = match self.jump_targets.pop() {
            Some(jt) => jt,
            None => {
                return Err(Error::Internal(InternalError::InvalidStackEffect));
            },
        };
        jt.fill_end_jumps(self);
        // each iteration discards the body's result, but the loop as a
        // whole yields a value: the break expression, or unit
        self.stack.push(None);
        Ok(())
    }
}

/// Intern an identifier as a string constant: the returned index holds the
/// name's UTF-8 bytes, appended only if not already present.
fn intern_name(pool: &mut Compiler, name: &String) -> (r: Result<u16>)
    requires
        old(pool).inv(),
    ensures
        final(pool).inv(),
        final(pool).globals == old(pool).globals,
        final(pool).struct_types == old(pool).struct_types,
        final(pool).constants@.subrange(0, old(pool).constants@.len() as int) == old(
            pool,
        ).constants@,
        match r {
            Ok(k) => (k as int) < final(pool).constants@.len() && crate::module::cview(
                final(pool).constants@[k as int],
            ) == crate::module::ConstantV::String(crate::strings::utf8_bytes_of(name@)),
            Err(e) => e == Error::Internal(InternalError::InvalidBytecode),
        },
{
    let bytes = str_to_bytes(name.as_str());
    if bytes.len() > 65535 {
        return Err(Error::Internal(InternalError::InvalidBytecode));
    }
    let ghost b = bytes@;
    match pool.add_constant(Constant::String(bytes)) {
        Ok(k) => {
            proof {
                match pool.constants@[k as int] {
                    Constant::String(s) => {
                        assert(s@ == b);
                    },
                    _ => {
                        assert(false);
                    },
                }
            }
            Ok(k)
        },
        Err(e) => Err(e),
    }
}

// ---------------------------------------------------------------------------
// Entry points
// ---------------------------------------------------------------------------

/// Compile a source file's AST to a bytecode module. On success: the
/// module is well formed; its constant pool holds no two structurally
/// equal entries; every function constant passes the stack-effect and
/// jump-validity check — along every path its operand stack depth is
/// consistent, never negative, and ends exactly one above the parameters,
/// and every jump lands on an instruction boundary — and its body is the
/// encoding of an instruction sequence, so no instruction boundary carries
/// the reserved opcode byte 0 (`lemma_encoded_boundaries_nonzero`); and
/// the file held only `fn` and `struct` declarations, any `use`, `mixin`
/// or `impl` having been rejected as unsupported.
pub fn compile_ast(file: &ast::SourceFile) -> (r: Result<Module>)
    ensures
        match r {
            Ok(m) => m.wf() && pool_dedup(m.constants@) && functions_checked(m.constants@)
                && forall|i: int|
                0 <= i < file.declarations@.len() ==> (#[trigger] file.declarations@[i]) is Fn
                    || file.declarations@[i] is Struct,
            Err(_) => true,
        },
{
    let mut c = Compiler::new();
    match c.visit_source_file(file) {
        Ok(()) => (),
        Err(e) => {
            return Err(e);
        },
    }
    let ghost cv = c.as_view();
    let m = Module::new(c.constants, c.globals, c.struct_types);
    proof {
        assert(mview(m).constants =~= cv.constants);
        assert(mview(m).structs =~= cv.structs);
        assert(module_wf_v(mview(m)));
    }
    Ok(m)
}

/// Whether `m` is a compilation result for `file`: well formed, with a
/// deduplicated pool and checked, well-encoded functions, produced from a
/// file of `fn` and `struct` declarations only.
pub open spec fn spec_compiled_module(file: ast::SourceFile, m: Module) -> bool {
    &&& m.wf()
    &&& pool_dedup(m.constants@)
    &&& functions_checked(m.constants@)
    &&& forall|i: int|
        0 <= i < file.declarations@.len() ==> (#[trigger] file.declarations@[i]) is Fn
            || file.declarations@[i] is Struct
}

/// Compile a source file's AST straight to the byte form of its module:
/// the bytes are the deterministic encoding of a compilation result for
/// this file.
pub fn compile_to_bytes(file: &ast::SourceFile) -> (r: Result<Vec<u8>>)
    ensures
        match r {
            Ok(bytes) => exists|m: Module|
                #[trigger] spec_compiled_module(*file, m) && bytes@
                    == crate::codec::spec_encode_module(mview(m)),
            Err(_) => true,
        },
{
    let m = match compile_ast(file) {
        Ok(m) => m,
        Err(e) => {
            return Err(e);
        },
    };
    let bytes = crate::codec::write_bytecode(&m);
    proof {
        assert(spec_compiled_module(*file, m));
    }
    Ok(bytes)
}

} // verus!
