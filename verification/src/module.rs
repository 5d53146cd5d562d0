//! The bytecode module: a constant pool, a map of globals and a map of
//! struct descriptors, all addressed by constant index.

use vstd::prelude::*;

use crate::number::num_ok;
use crate::strings::utf8_ok;

verus! {

/// The kind tags of constant pool entries, in their encoding order.
#[derive(Clone, Copy, Debug, PartialEq, Eq, Structural)]
pub enum ConstantType {
    Number,
    String,
    Function,
}

impl ConstantType {
    /// The kind tag byte of this constant kind.
    pub fn byte(self) -> (r: u8)
        ensures
            r == spec_constant_type_byte(self),
    {
        match self {
            ConstantType::Number => 0,
            ConstantType::String => 1,
            ConstantType::Function => 2,
        }
    }
}

pub open spec fn spec_constant_type_byte(t: ConstantType) -> u8 {
    match t {
        ConstantType::Number => 0,
        ConstantType::String => 1,
        ConstantType::Function => 2,
    }
}

/// The kind tags of struct descriptors, in their encoding order.
#[derive(Clone, Copy, Debug, PartialEq, Eq, Structural)]
pub enum StructType {
    Empty,
    Positional,
    Named,
}

/// A function constant: its arity and its encoded instruction stream.
#[derive(Clone, Debug, PartialEq, Eq)]
pub struct Function {
    pub arity: u16,
    pub body: Vec<u8>,
}

impl Function {
    pub fn new(arity: u16, body: Vec<u8>) -> (r: Function)
        ensures
            r.arity == arity,
            r.body == body,
    {
        Function { arity, body }
    }

    pub fn arity(&self) -> (r: u16)
        ensures
            r == self.arity,
    {
        self.arity
    }

    pub fn body(&self) -> (r: &Vec<u8>)
        ensures
            r == self.body,
    {
        &self.body
    }
}

/// A constant pool entry. Numbers carry the byte text of a decimal literal;
/// strings carry UTF-8 bytes.
#[derive(Clone, Debug, PartialEq, Eq)]
pub enum Constant {
    Number(Vec<u8>),
    String(Vec<u8>),
    Function(Function),
}

/// Structural equality of constants, over their byte contents.
pub open spec fn spec_constant_eq(a: Constant, b: Constant) -> bool {
    match (a, b) {
        (Constant::Number(x), Constant::Number(y)) => x@ == y@,
        (Constant::String(x), Constant::String(y)) => x@ == y@,
        (Constant::Function(x), Constant::Function(y)) => x.arity == y.arity && x.body@ == y.body@,
        _ => false,
    }
}

impl Constant {
    /// Whether this entry is well formed: its text parses for its kind, and
    /// its byte length fits the format's 16-bit length prefix.
    pub open spec fn wf(self) -> bool {
        constant_wf_v(cview(self))
    }

    /// Structural equality with another constant.
    pub fn equals(&self, other: &Constant) -> (r: bool)
        ensures
            r == spec_constant_eq(*self, *other),
    {
        match (self, other) {
            (Constant::Number(x), Constant::Number(y)) => bytes_eq(x, y),
            (Constant::String(x), Constant::String(y)) => bytes_eq(x, y),
            (Constant::Function(x), Constant::Function(y)) => x.arity == y.arity && bytes_eq(
                &x.body,
                &y.body,
            ),
            _ => false,
        }
    }
}

/// Byte-for-byte equality of two byte vectors.
pub fn bytes_eq(a: &Vec<u8>, b: &Vec<u8>) -> (r: bool)
    ensures
        r == (a@ == b@),
{
    if a.len() != b.len() {
        proof {
            assert(a@.len() != b@.len());
        }
        return false;
    }
    let n = a.len();
    let mut i: usize = 0;
    while i < n
        invariant
            0 <= i <= n,
            n == a@.len(),
            n == b@.len(),
            forall|j: int| 0 <= j < i ==> a@[j] == b@[j],
        decreases n - i,
    {
        if a[i] != b[i] {
            return false;
        }
        i = i + 1;
    }
    proof {
        assert(a@ =~= b@);
    }
    true
}

/// A struct descriptor: empty, positional with a field count, or named with
/// an ordered list of field-name constant indices.
#[derive(Clone, Debug, PartialEq, Eq)]
pub enum Struct {
    Empty,
    Positional(u16),
    Named(Vec<u16>),
}

impl Struct {
    /// The kind tag byte of this descriptor.
    pub fn type_byte(&self) -> (r: u8)
        ensures
            r == spec_struct_type_byte(*self),
    {
        match self {
            Struct::Empty => 0,
            Struct::Positional(_) => 1,
            Struct::Named(_) => 2,
        }
    }
}

pub open spec fn spec_struct_type_byte(s: Struct) -> u8 {
    match s {
        Struct::Empty => 0,
        Struct::Positional(_) => 1,
        Struct::Named(_) => 2,
    }
}


// ---------------------------------------------------------------------------
// Ghost views
// ---------------------------------------------------------------------------

/// The ghost view of a function constant.
pub struct FunctionV {
    pub arity: u16,
    pub body: Seq<u8>,
}

/// The ghost view of a constant pool entry.
pub enum ConstantV {
    Number(Seq<u8>),
    String(Seq<u8>),
    Function(FunctionV),
}

/// The ghost view of a struct descriptor.
pub enum StructV {
    Empty,
    Positional(u16),
    Named(Seq<u16>),
}

/// The ghost view of a whole module.
pub struct ModuleV {
    pub constants: Seq<ConstantV>,
    pub globals: Seq<(u16, u16)>,
    pub structs: Seq<(u16, StructV)>,
}

pub open spec fn cview(c: Constant) -> ConstantV {
    match c {
        Constant::Number(b) => ConstantV::Number(b@),
        Constant::String(b) => ConstantV::String(b@),
        Constant::Function(f) => ConstantV::Function(FunctionV { arity: f.arity, body: f.body@ }),
    }
}

pub open spec fn sview(s: Struct) -> StructV {
    match s {
        Struct::Empty => StructV::Empty,
        Struct::Positional(n) => StructV::Positional(n),
        Struct::Named(v) => StructV::Named(v@),
    }
}

pub open spec fn mview(m: Module) -> ModuleV {
    ModuleV {
        constants: Seq::new(m.constants@.len(), |i: int| cview(m.constants@[i])),
        globals: m.globals@,
        structs: Seq::new(
            m.structs@.len(),
            |i: int| (m.structs@[i].0, sview(m.structs@[i].1)),
        ),
    }
}

/// Well-formedness of a constant view: its text parses for its kind and its
/// length fits the 16-bit prefix.
pub open spec fn constant_wf_v(c: ConstantV) -> bool {
    match c {
        ConstantV::Number(b) => num_ok(b) && b.len() <= u16::MAX,
        ConstantV::String(b) => utf8_ok(b) && b.len() <= u16::MAX,
        ConstantV::Function(f) => f.body.len() <= u16::MAX,
    }
}

pub open spec fn resolves_to_string_v(constants: Seq<ConstantV>, i: int) -> bool {
    &&& 0 <= i < constants.len()
    &&& constants[i] is String
}

pub open spec fn struct_wf_v(constants: Seq<ConstantV>, s: StructV) -> bool {
    match s {
        StructV::Empty => true,
        StructV::Positional(_) => true,
        StructV::Named(fields) => fields.len() <= u16::MAX && forall|i: int|
            0 <= i < fields.len() ==> resolves_to_string_v(constants, (#[trigger] fields[i]) as int),
    }
}

/// The module invariants: counts fit the 16-bit length prefixes, every
/// constant is well formed, and every name index in the globals and the
/// struct descriptors resolves to a string constant inside the pool.
pub open spec fn module_wf_v(mv: ModuleV) -> bool {
    &&& mv.constants.len() <= u16::MAX
    &&& mv.globals.len() <= u16::MAX
    &&& mv.structs.len() <= u16::MAX
    &&& forall|i: int| 0 <= i < mv.constants.len() ==> constant_wf_v(#[trigger] mv.constants[i])
    &&& forall|i: int|
        0 <= i < mv.globals.len() ==> resolves_to_string_v(
            mv.constants,
            (#[trigger] mv.globals[i]).0 as int,
        ) && (mv.globals[i].1 as int) < mv.constants.len()
    &&& forall|i: int|
        0 <= i < mv.structs.len() ==> resolves_to_string_v(
            mv.constants,
            (#[trigger] mv.structs[i]).0 as int,
        ) && struct_wf_v(mv.constants, mv.structs[i].1)
}

/// A whole bytecode file held as bytes.
#[derive(Clone, Debug, PartialEq, Eq)]
pub struct Bytecode {
    pub bytes: Vec<u8>,
}

/// A bytecode module: the constant pool, the globals (name-index to
/// value-index pairs) and the struct descriptors (name-index keyed).
#[derive(Clone, Debug, PartialEq, Eq)]
pub struct Module {
    pub constants: Vec<Constant>,
    pub globals: Vec<(u16, u16)>,
    pub structs: Vec<(u16, Struct)>,
}

/// Whether constant `i` of `constants` is a string constant holding `name`.
pub open spec fn spec_is_string_at(constants: Seq<Constant>, i: int, name: Seq<u8>) -> bool {
    &&& 0 <= i < constants.len()
    &&& constants[i] matches Constant::String(b) && b@ == name
}

/// Whether constant `i` exists and is a string constant.
pub open spec fn spec_resolves_to_string(constants: Seq<Constant>, i: int) -> bool {
    &&& 0 <= i < constants.len()
    &&& constants[i] is String
}

impl Module {
    pub open spec fn spec_constants(self) -> Seq<Constant> {
        self.constants@
    }

    pub open spec fn spec_globals(self) -> Seq<(u16, u16)> {
        self.globals@
    }

    pub open spec fn spec_structs(self) -> Seq<(u16, Struct)> {
        self.structs@
    }

    /// The module invariants: counts fit the 16-bit length prefixes, every
    /// constant is well formed, and every name index in the globals and the
    /// struct descriptors resolves to a string constant inside the pool.
    pub open spec fn wf(self) -> bool {
        module_wf_v(mview(self))
    }

    pub fn new(
        constants: Vec<Constant>,
        globals: Vec<(u16, u16)>,
        structs: Vec<(u16, Struct)>,
    ) -> (r: Module)
        ensures
            r.spec_constants() == constants@,
            r.spec_globals() == globals@,
            r.spec_structs() == structs@,
    {
        Module { constants, globals, structs }
    }

    pub fn constants(&self) -> (r: &Vec<Constant>)
        ensures
            r@ == self.spec_constants(),
    {
        &self.constants
    }

    /// The constant at `index`, if the pool reaches that far.
    pub fn constant(&self, index: usize) -> (r: Option<&Constant>)
        ensures
            match r {
                Some(c) => index < self.spec_constants().len() && *c == self.spec_constants()[
                    index as int
                ],
                None => index >= self.spec_constants().len(),
            },
    {
        if index < self.constants.len() {
            Some(&self.constants[index])
        } else {
            None
        }
    }

    pub fn globals(&self) -> (r: &Vec<(u16, u16)>)
        ensures
            r@ == self.spec_globals(),
    {
        &self.globals
    }

    pub fn structs(&self) -> (r: &Vec<(u16, Struct)>)
        ensures
            r@ == self.spec_structs(),
    {
        &self.structs
    }

    /// The value-index bound to the global named `name`: of all entries whose
    /// name index resolves to a string constant equal to `name`, the last.
    pub open spec fn spec_global_index(self, name: Seq<u8>) -> Option<u16> {
        spec_lookup_pair(self.constants@, self.globals@, name)
    }

    /// The value bound to the global named `name`, resolved through the
    /// name-index to value-index chain; `None` when the name is unbound or
    /// its value index lies outside the pool.
    pub open spec fn spec_global(self, name: Seq<u8>) -> Option<Constant> {
        match self.spec_global_index(name) {
            Option::Some(v) => if v < self.constants@.len() {
                Option::Some(self.constants@[v as int])
            } else {
                Option::None
            },
            Option::None => Option::None,
        }
    }

    /// The value index bound to a global name, if any.
    pub fn global_index(&self, name: &Vec<u8>) -> (r: Option<u16>)
        ensures
            r == self.spec_global_index(name@),
    {
        let n = self.globals.len();
        let mut found: Option<u16> = None;
        let mut i: usize = 0;
        while i < n
            invariant
                0 <= i <= n,
                n == self.globals@.len(),
                found == spec_lookup_pair(
                    self.constants@,
                    self.globals@.subrange(0, i as int),
                    name@,
                ),
            decreases n - i,
        {
            let ghost prefix = self.globals@.subrange(0, i as int);
            let (k, v) = self.globals[i];
            if (k as usize) < self.constants.len() {
                match &self.constants[k as usize] {
                    Constant::String(b) => if bytes_eq(b, name) {
                        found = Some(v);
                    },
                    _ => (),
                }
            }
            i = i + 1;
            proof {
                assert(self.globals@.subrange(0, i as int) =~= prefix.push(self.globals@[i - 1]));
                lemma_lookup_pair_push(self.constants@, prefix, self.globals@[i - 1], name@);
            }
        }
        proof {
            assert(self.globals@.subrange(0, n as int) =~= self.globals@);
        }
        found
    }

    /// Look up a global by name.
    pub fn global(&self, name: &Vec<u8>) -> (r: Option<&Constant>)
        ensures
            match r {
                Some(c) => self.spec_global(name@) == Option::Some(*c),
                None => self.spec_global(name@) is None,
            },
    {
        match self.global_index(name) {
            Some(v) => self.constant(v as usize),
            None => None,
        }
    }

    /// Look up a struct descriptor by name: of all entries whose name index
    /// resolves to a string constant equal to `name`, the last.
    pub open spec fn spec_struct(self, name: Seq<u8>) -> Option<Struct> {
        spec_lookup_struct(self.constants@, self.structs@, name)
    }

    pub fn strucct(&self, name: &Vec<u8>) -> (r: Option<&Struct>)
        ensures
            match r {
                Some(s) => self.spec_struct(name@) == Option::Some(*s),
                None => self.spec_struct(name@) is None,
            },
    {
        let n = self.structs.len();
        let mut found: Option<usize> = None;
        let mut i: usize = 0;
        while i < n
            invariant
                0 <= i <= n,
                n == self.structs@.len(),
                match found {
                    Some(j) => j < i && spec_is_string_at(
                        self.constants@,
                        self.structs@[j as int].0 as int,
                        name@,
                    ) && spec_lookup_struct(
                        self.constants@,
                        self.structs@.subrange(0, i as int),
                        name@,
                    ) == Option::Some(self.structs@[j as int].1),
                    None => spec_lookup_struct(
                        self.constants@,
                        self.structs@.subrange(0, i as int),
                        name@,
                    ) is None,
                },
            decreases n - i,
        {
            let ghost prefix = self.structs@.subrange(0, i as int);
            let (k, _) = self.structs[i];
            if (k as usize) < self.constants.len() {
                match &self.constants[k as usize] {
                    Constant::String(b) => if bytes_eq(b, name) {
                        found = Some(i);
                    },
                    _ => (),
                }
            }
            i = i + 1;
            proof {
                assert(self.structs@.subrange(0, i as int) =~= prefix.push(self.structs@[i - 1]));
                lemma_lookup_struct_push(self.constants@, prefix, self.structs@[i - 1], name@);
            }
        }
        proof {
            assert(self.structs@.subrange(0, n as int) =~= self.structs@);
        }
        match found {
            Some(j) => Some(&self.structs[j].1),
            None => None,
        }
    }
}

/// The value index of the last pair in `pairs` whose name index resolves to
/// a string constant equal to `name`.
pub open spec fn spec_lookup_pair(
    constants: Seq<Constant>,
    pairs: Seq<(u16, u16)>,
    name: Seq<u8>,
) -> Option<u16>
    decreases pairs.len(),
{
    if pairs.len() == 0 {
        Option::None
    } else {
        let last = pairs[pairs.len() - 1];
        if spec_is_string_at(constants, last.0 as int, name) {
            Option::Some(last.1)
        } else {
            spec_lookup_pair(constants, pairs.drop_last(), name)
        }
    }
}

/// The descriptor of the last struct entry whose name index resolves to a
/// string constant equal to `name`.
pub open spec fn spec_lookup_struct(
    constants: Seq<Constant>,
    entries: Seq<(u16, Struct)>,
    name: Seq<u8>,
) -> Option<Struct>
    decreases entries.len(),
{
    if entries.len() == 0 {
        Option::None
    } else {
        let last = entries[entries.len() - 1];
        if spec_is_string_at(constants, last.0 as int, name) {
            Option::Some(last.1)
        } else {
            spec_lookup_struct(constants, entries.drop_last(), name)
        }
    }
}

proof fn lemma_lookup_pair_push(
    constants: Seq<Constant>,
    pairs: Seq<(u16, u16)>,
    p: (u16, u16),
    name: Seq<u8>,
)
    ensures
        spec_lookup_pair(constants, pairs.push(p), name) == if spec_is_string_at(
            constants,
            p.0 as int,
            name,
        ) {
            Option::Some(p.1)
        } else {
            spec_lookup_pair(constants, pairs, name)
        },
{
    let ext = pairs.push(p);
    assert(ext[ext.len() - 1] == p);
    assert(ext.drop_last() =~= pairs);
}

proof fn lemma_lookup_struct_push(
    constants: Seq<Constant>,
    entries: Seq<(u16, Struct)>,
    p: (u16, Struct),
    name: Seq<u8>,
)
    ensures
        spec_lookup_struct(constants, entries.push(p), name) == if spec_is_string_at(
            constants,
            p.0 as int,
            name,
        ) {
            Option::Some(p.1)
        } else {
            spec_lookup_struct(constants, entries, name)
        },
{
    let ext = entries.push(p);
    assert(ext[ext.len() - 1] == p);
    assert(ext.drop_last() =~= entries);
}

} // verus!
