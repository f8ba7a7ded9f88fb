//! Execution of WebAssembly modules: runtime values, tables, memories and instructions.
use vstd::arithmetic::power2::{lemma2_to64, pow2};
use vstd::prelude::*;
use vstd::string::StringSliceAdditionalSpecFns;

use crate::error::{check, invalid, trap, Error};
use crate::parser::{spec_byte_enum, spec_instr, spec_u32, InstrView};
use crate::side_table::{decode_entry, BranchTableEntryView};
use crate::syntax::{
    Bx, CvtOp, ExportDesc, FuncType, IBinOp, IRelOp, ITestOp, IUnOp, Instr, Limits, MemArg, Nx,
    NumType, RefType, Sx, TableType, ValType,
};

verus! {

/// Memories given to instances are aligned to this number of bytes.
pub const MEMORY_ALIGN: usize = 16;

/// Runtime values. Floating-point values are held by their bits.
#[derive(Debug, Copy, Clone, PartialEq, Eq, Structural)]
pub enum Val {
    I32(u32),
    I64(u64),
    F32(u32),
    F64(u64),
    Null(RefType),
    Ref(Ptr),
    RefExtern(usize),
}

/// A reference to a function, table, memory or global: an instance and an index.
#[derive(Debug, Copy, Clone, PartialEq, Eq, Structural)]
pub struct Ptr(pub u32);

/// Whether an item is provided by the host or by an instance.
#[derive(Debug, Copy, Clone, PartialEq, Eq, Structural)]
pub enum Side {
    Host,
    Wasm(usize),
}

/// The number of bits of the index in a pointer (the rest is for the instance).
pub const INDEX_BITS: u32 = 20;

/// The largest index in a pointer.
pub const INDEX_MASK: u32 = 0xfffff;

/// The largest instance representation in a pointer.
pub const INST_MASK: u32 = 0xfff;

impl Side {
    pub open spec fn spec_repr(self) -> int {
        match self {
            Side::Host => 0,
            Side::Wasm(x) => 1 + x,
        }
    }

    pub open spec fn spec_from_repr(x: int) -> Side {
        if x == 0 {
            Side::Host
        } else {
            Side::Wasm((x - 1) as usize)
        }
    }

    pub fn into_repr(self) -> (r: usize)
        requires
            self.spec_repr() <= usize::MAX,
        ensures
            r == self.spec_repr(),
    {
        match self {
            Side::Host => 0,
            Side::Wasm(x) => 1 + x,
        }
    }

    pub fn from_repr(x: usize) -> (r: Side)
        ensures
            r == Side::spec_from_repr(x as int),
    {
        if x == 0 {
            Side::Host
        } else {
            Side::Wasm(x - 1)
        }
    }

    pub fn unwrap_wasm(self) -> (r: usize)
        requires
            self is Wasm,
        ensures
            self == Side::Wasm(r),
    {
        match self {
            Side::Wasm(x) => x,
            Side::Host => 0,
        }
    }
}

impl Ptr {
    pub open spec fn spec_new(inst: Side, idx: u32) -> Ptr {
        Ptr(((inst.spec_repr() as u32) << INDEX_BITS) | idx)
    }

    pub open spec fn spec_instance(self) -> Side {
        Side::spec_from_repr((self.0 >> INDEX_BITS) as int)
    }

    pub open spec fn spec_index(self) -> u32 {
        self.0 & INDEX_MASK
    }

    /// The pointer to item `idx` of `inst`, which must fit.
    pub fn new(inst: Side, idx: u32) -> (r: Ptr)
        requires
            inst.spec_repr() <= INST_MASK,
            idx <= INDEX_MASK,
        ensures
            r == Ptr::spec_new(inst, idx),
    {
        let i = inst.into_repr() as u32;
        Ptr((i << INDEX_BITS) | idx)
    }

    pub fn instance(self) -> (r: Side)
        ensures
            r == self.spec_instance(),
    {
        Side::from_repr((self.0 >> INDEX_BITS) as usize)
    }

    pub fn index(self) -> (r: u32)
        ensures
            r == self.spec_index(),
    {
        self.0 & INDEX_MASK
    }
}

/// A pointer gives back the instance and index it was made of.
pub proof fn lemma_ptr_round_trip(inst: Side, idx: u32)
    requires
        inst.spec_repr() <= INST_MASK,
        idx <= INDEX_MASK,
    ensures
        Ptr::spec_new(inst, idx).spec_instance() == inst,
        Ptr::spec_new(inst, idx).spec_index() == idx,
{
    let i = inst.spec_repr() as u32;
    let p = (i << 20u32) | idx;
    assert(p >> 20u32 == i && p & 0xfffffu32 == idx) by (bit_vector)
        requires
            i <= 0xfff,
            idx <= 0xfffff,
            p == (i << 20u32) | idx,
    ;
}

impl Val {
    pub open spec fn spec_type(self) -> ValType {
        match self {
            Val::I32(_) => ValType::I32,
            Val::I64(_) => ValType::I64,
            Val::F32(_) => ValType::F32,
            Val::F64(_) => ValType::F64,
            Val::Null(t) => t.spec_valtype(),
            Val::Ref(_) => ValType::FuncRef,
            Val::RefExtern(_) => ValType::ExternRef,
        }
    }

    /// The type of a value.
    pub fn type_(self) -> (r: ValType)
        ensures
            r == self.spec_type(),
    {
        match self {
            Val::I32(_) => ValType::I32,
            Val::I64(_) => ValType::I64,
            Val::F32(_) => ValType::F32,
            Val::F64(_) => ValType::F64,
            Val::Null(t) => t.valtype(),
            Val::Ref(_) => ValType::FuncRef,
            Val::RefExtern(_) => ValType::ExternRef,
        }
    }

    /// The integer of a 32-bit integer value.
    pub fn unwrap_i32(self) -> (r: Result<u32, Error>)
        ensures
            match self {
                Val::I32(x) => r == Ok::<u32, Error>(x),
                _ => r == Err::<u32, Error>(Error::Invalid),
            },
    {
        match self {
            Val::I32(x) => Ok(x),
            _ => Err(invalid()),
        }
    }

    /// The integer of a 64-bit integer value.
    pub fn unwrap_i64(self) -> (r: Result<u64, Error>)
        ensures
            match self {
                Val::I64(x) => r == Ok::<u64, Error>(x),
                _ => r == Err::<u64, Error>(Error::Invalid),
            },
    {
        match self {
            Val::I64(x) => Ok(x),
            _ => Err(invalid()),
        }
    }

    /// The bits of a 32-bit float value.
    pub fn unwrap_f32(self) -> (r: Result<u32, Error>)
        ensures
            match self {
                Val::F32(x) => r == Ok::<u32, Error>(x),
                _ => r == Err::<u32, Error>(Error::Invalid),
            },
    {
        match self {
            Val::F32(x) => Ok(x),
            _ => Err(invalid()),
        }
    }

    /// The bits of a 64-bit float value.
    pub fn unwrap_f64(self) -> (r: Result<u64, Error>)
        ensures
            match self {
                Val::F64(x) => r == Ok::<u64, Error>(x),
                _ => r == Err::<u64, Error>(Error::Invalid),
            },
    {
        match self {
            Val::F64(x) => Ok(x),
            _ => Err(invalid()),
        }
    }

    /// The pointer of a function reference.
    pub fn unwrap_ref(self) -> (r: Result<Ptr, Error>)
        ensures
            match self {
                Val::Ref(x) => r == Ok::<Ptr, Error>(x),
                _ => r == Err::<Ptr, Error>(Error::Invalid),
            },
    {
        match self {
            Val::Ref(x) => Ok(x),
            _ => Err(invalid()),
        }
    }
}

/// The default value of a type (used for locals).
pub open spec fn spec_default(t: ValType) -> Option<Val> {
    match t {
        ValType::I32 => Some(Val::I32(0)),
        ValType::I64 => Some(Val::I64(0)),
        ValType::F32 => Some(Val::F32(0)),
        ValType::F64 => Some(Val::F64(0)),
        ValType::V128 => None,
        ValType::FuncRef => Some(Val::Null(RefType::FuncRef)),
        ValType::ExternRef => Some(Val::Null(RefType::ExternRef)),
    }
}

/// Whether a value has a type.
pub open spec fn spec_contains(t: ValType, v: Val) -> bool {
    match (t, v) {
        (ValType::I32, Val::I32(_)) => true,
        (ValType::I64, Val::I64(_)) => true,
        (ValType::F32, Val::F32(_)) => true,
        (ValType::F64, Val::F64(_)) => true,
        (ValType::FuncRef, Val::Null(RefType::FuncRef)) => true,
        (ValType::FuncRef, Val::Ref(_)) => true,
        (ValType::ExternRef, Val::Null(RefType::ExternRef)) => true,
        (ValType::ExternRef, Val::RefExtern(_)) => true,
        _ => false,
    }
}

/// The default value of a type, which is not supported for vectors.
pub fn default_val(t: ValType) -> (r: Result<Val, Error>)
    ensures
        match spec_default(t) {
            Some(v) => r == Ok::<Val, Error>(v),
            None => r == Err::<Val, Error>(Error::Unsupported(crate::error::Unsupported::Opcode(0x7b))),
        },
{
    match t {
        ValType::I32 => Ok(Val::I32(0)),
        ValType::I64 => Ok(Val::I64(0)),
        ValType::F32 => Ok(Val::F32(0)),
        ValType::F64 => Ok(Val::F64(0)),
        ValType::V128 => Err(crate::error::unsupported(crate::error::Unsupported::Opcode(0x7b))),
        ValType::FuncRef => Ok(Val::Null(RefType::FuncRef)),
        ValType::ExternRef => Ok(Val::Null(RefType::ExternRef)),
    }
}

/// Whether a value has a type.
pub fn contains(t: ValType, v: Val) -> (r: bool)
    ensures
        r == spec_contains(t, v),
{
    match (t, v) {
        (ValType::I32, Val::I32(_)) => true,
        (ValType::I64, Val::I64(_)) => true,
        (ValType::F32, Val::F32(_)) => true,
        (ValType::F64, Val::F64(_)) => true,
        (ValType::FuncRef, Val::Null(RefType::FuncRef)) => true,
        (ValType::FuncRef, Val::Ref(_)) => true,
        (ValType::ExternRef, Val::Null(RefType::ExternRef)) => true,
        (ValType::ExternRef, Val::RefExtern(_)) => true,
        _ => false,
    }
}

/// The default value of a type has that type.
pub proof fn lemma_default_contains(t: ValType)
    requires
        spec_default(t) is Some,
    ensures
        spec_contains(t, spec_default(t)->Some_0),
{
}

/// Checks that values have the given types.
pub fn check_types(types: &[ValType], values: &[Val]) -> (r: Result<(), Error>)
    ensures
        r == crate::error::spec_check(types@.len() == values@.len() && forall|i: int|
            0 <= i < types@.len() ==> spec_contains(#[trigger] types@[i], values@[i])),
{
    check(types.len() == values.len())?;
    let mut i: usize = 0;
    while i < types.len()
        invariant
            types@.len() == values@.len(),
            i <= types@.len(),
            forall|j: int| 0 <= j < i ==> spec_contains(#[trigger] types@[j], values@[j]),
        decreases types@.len() - i,
    {
        if !contains(types[i], values[i]) {
            return Err(invalid());
        }
        i = i + 1;
    }
    Ok(())
}

// ---------------------------------------------------------------------------------------------
// Tables, memories and globals.

/// A table of references.
#[derive(Debug)]
pub struct Table {
    pub max: u32,
    pub elems: Vec<Val>,
}

impl Table {
    /// A table of the given type, filled with null references.
    pub fn new(type_: TableType) -> (r: Table)
        ensures
            r.max == type_.limits.max,
            r.elems@ == Seq::new(type_.limits.min as nat, |i: int| Val::Null(type_.item)),
    {
        let mut elems = Vec::new();
        let mut i: u32 = 0;
        while i < type_.limits.min
            invariant
                i <= type_.limits.min,
                elems@ == Seq::new(i as nat, |j: int| Val::Null(type_.item)),
            decreases type_.limits.min - i,
        {
            elems.push(Val::Null(type_.item));
            i = i + 1;
            proof {
                assert(elems@ =~= Seq::new(i as nat, |j: int| Val::Null(type_.item)));
            }
        }
        Table { max: type_.limits.max, elems }
    }

    /// The number of elements.
    pub fn size(&self) -> (r: u32)
        requires
            self.elems@.len() <= u32::MAX,
        ensures
            r == self.elems@.len(),
    {
        self.elems.len() as u32
    }
}

/// A linear memory.
#[derive(Debug)]
pub struct Memory {
    /// May be shorter than the size of the memory, but not longer than its maximum.
    pub data: Vec<u8>,
    /// The size in pages currently available to the module.
    pub size: u32,
    pub max: u32,
}

/// The number of bytes of a page.
pub const PAGE_SIZE: u64 = 0x10000;

impl Memory {
    /// An empty memory.
    pub fn empty() -> (r: Memory)
        ensures
            r.data@.len() == 0,
            r.size == 0,
            r.max == 0,
    {
        Memory { data: Vec::new(), size: 0, max: 0 }
    }

    pub open spec fn spec_len(&self) -> int {
        let pages = self.size * PAGE_SIZE;
        let n = if self.data@.len() < pages {
            self.data@.len() as int
        } else {
            pages as int
        };
        if n <= u32::MAX {
            n
        } else {
            u32::MAX as int
        }
    }

    /// The number of bytes the module can access.
    pub fn len(&self) -> (r: u32)
        ensures
            r == self.spec_len(),
    {
        let pages = self.size as u64 * PAGE_SIZE;
        let n = if (self.data.len() as u64) < pages {
            self.data.len() as u64
        } else {
            pages
        };
        if n <= u32::MAX as u64 {
            n as u32
        } else {
            u32::MAX
        }
    }

    /// Uses `data` (cleared) as the memory, within the limits.
    pub fn init(&mut self, data: Vec<u8>, limits: Limits)
        ensures
            final(self).size == limits.min,
            final(self).max == limits.max,
            final(self).data@.len() == if limits.max < 0x10000 && limits.max * PAGE_SIZE
                < data@.len() {
                limits.max * PAGE_SIZE
            } else {
                data@.len() as int
            },
            forall|i: int| 0 <= i < final(self).data@.len() ==> #[trigger] final(self).data@[i] == 0,
    {
        let mut data = data;
        if limits.max < 0x10000 {
            let max = limits.max as u64 * PAGE_SIZE;
            if max < data.len() as u64 {
                data.truncate(max as usize);
            }
        }
        let ghost len0 = data@.len();
        let mut i: usize = 0;
        while i < data.len()
            invariant
                i <= data@.len(),
                data@.len() == len0,
                forall|j: int| 0 <= j < i ==> #[trigger] data@[j] == 0,
            decreases data@.len() - i,
        {
            data.set(i, 0);
            i = i + 1;
        }
        self.data = data;
        self.size = limits.min;
        self.max = limits.max;
    }
}

/// A global variable.
#[derive(Debug)]
pub struct Global {
    pub value: Val,
}

impl Global {
    pub fn new(value: Val) -> (r: Global)
        ensures
            r.value == value,
    {
        Global { value }
    }
}

/// The size after growing by `n` from `size`, if it stays within `max`.
pub open spec fn spec_grow(size: u32, max: u32, n: u32) -> Option<u32> {
    if size + n <= max {
        Some((size + n) as u32)
    } else {
        None
    }
}

/// Grows a memory by `n` pages. Returns the old size, or `u32::MAX` if it cannot grow.
pub fn grow_memory(mem: &mut Memory, n: u32) -> (r: u32)
    ensures
        final(mem).data@ == old(mem).data@,
        final(mem).max == old(mem).max,
        match spec_grow(old(mem).size, old(mem).max, n) {
            Some(s) => r == old(mem).size && final(mem).size == s,
            None => r == u32::MAX && final(mem).size == old(mem).size,
        },
{
    let sz = mem.size;
    if n <= u32::MAX - sz && sz + n <= mem.max {
        mem.size = sz + n;
        sz
    } else {
        u32::MAX
    }
}

/// Grows a table by `n` elements `item`. Returns the old size, or `u32::MAX` if it cannot grow.
pub fn grow_table(table: &mut Table, n: u32, item: Val) -> (r: u32)
    requires
        old(table).elems@.len() <= u32::MAX,
    ensures
        final(table).max == old(table).max,
        match spec_grow(old(table).elems@.len() as u32, old(table).max, n) {
            Some(s) => r == old(table).elems@.len() && final(table).elems@ == old(table).elems@
                + Seq::new((s - old(table).elems@.len()) as nat, |i: int| item),
            None => r == u32::MAX && final(table).elems@ == old(table).elems@,
        },
{
    let sz = table.elems.len() as u32;
    if n <= u32::MAX - sz && sz + n <= table.max {
        let x = sz + n;
        {
            let ghost e0 = table.elems@;
            let mut i: u32 = sz;
            while i < x
                invariant
                    sz <= i <= x,
                    table.max == old(table).max,
                    table.elems@ == e0 + Seq::new((i - sz) as nat, |j: int| item),
                decreases x - i,
            {
                table.elems.push(item);
                i = i + 1;
                proof {
                    assert(table.elems@ =~= e0 + Seq::new((i - sz) as nat, |j: int| item));
                }
            }
        }
        sz
    } else {
        u32::MAX
    }
}

/// Copies `n` elements from `elems` at `s` to `table` at `d`, or traps if out of bounds.
pub fn table_init(d: usize, s: usize, n: usize, table: &mut Table, elems: &[Val]) -> (r: Result<(), Error>)
    ensures
        final(table).max == old(table).max,
        if s + n <= elems@.len() && d + n <= old(table).elems@.len() {
            r is Ok && final(table).elems@ == old(table).elems@.take(d as int) + elems@.subrange(
                s as int,
                s + n,
            ) + old(table).elems@.skip(d + n)
        } else {
            r == Err::<(), Error>(Error::Trap) && final(table).elems@ == old(table).elems@
        },
{
    if s > elems.len() || n > elems.len() - s || d > table.elems.len() || n > table.elems.len() - d {
        return Err(trap());
    }
    let mut k: usize = 0;
    while k < n
        invariant
            k <= n,
            s + n <= elems@.len() <= usize::MAX,
            d + n <= old(table).elems@.len() <= usize::MAX,
            table.max == old(table).max,
            table.elems@ == old(table).elems@.take(d as int) + elems@.subrange(s as int, s + k)
                + old(table).elems@.skip(d + k),
        decreases n - k,
    {
        table.elems.set(d + k, elems[s + k]);
        k = k + 1;
        proof {
            assert(table.elems@ =~= old(table).elems@.take(d as int) + elems@.subrange(
                s as int,
                s + k,
            ) + old(table).elems@.skip(d + k));
        }
    }
    Ok(())
}

/// Copies `n` bytes from `data` at `s` to the memory at `d`, or traps if out of bounds.
pub fn memory_init(d: usize, s: usize, n: usize, mem: &mut Memory, data: &[u8]) -> (r: Result<(), Error>)
    ensures
        final(mem).size == old(mem).size,
        final(mem).max == old(mem).max,
        if s + n <= data@.len() && d + n <= old(mem).spec_len() {
            r is Ok && final(mem).data@ == old(mem).data@.take(d as int) + data@.subrange(
                s as int,
                s + n,
            ) + old(mem).data@.skip(d + n)
        } else {
            r == Err::<(), Error>(Error::Trap) && final(mem).data@ == old(mem).data@
        },
{
    let len = mem.len() as usize;
    if s > data.len() || n > data.len() - s || d > len || n > len - d {
        return Err(trap());
    }
    let mut k: usize = 0;
    while k < n
        invariant
            k <= n,
            s + n <= data@.len() <= usize::MAX,
            d + n <= len,
            len <= old(mem).data@.len(),
            mem.size == old(mem).size,
            mem.max == old(mem).max,
            mem.data@ == old(mem).data@.take(d as int) + data@.subrange(s as int, s + k) + old(mem).data@.skip(d + k),
        decreases n - k,
    {
        mem.data.set(d + k, data[s + k]);
        k = k + 1;
        proof {
            assert(mem.data@ =~= old(mem).data@.take(d as int) + data@.subrange(s as int, s + k)
                + old(mem).data@.skip(d + k));
        }
    }
    Ok(())
}

// ---------------------------------------------------------------------------------------------
// Threads.

/// Floating-point arithmetic on the bits of values (the bits of 32-bit floats are the low bits).
pub trait Float {
    /// Compares two floats.
    fn relop(&self, n: Nx, op: crate::syntax::FRelOp, x: u64, y: u64) -> bool;

    /// Applies a unary operator.
    fn unop(&self, n: Nx, op: crate::syntax::FUnOp, x: u64) -> u64;

    /// Applies a binary operator other than `CopySign` (which the library computes on bits).
    fn binop(&self, n: Nx, op: crate::syntax::FBinOp, x: u64, y: u64) -> u64;

    /// Applies a conversion from or to floats (other than reinterpretations), or traps.
    fn convert(&self, op: CvtOp, x: Val) -> Option<Val>;
}

/// Whether the `k` top values of `vs` are floats of `n` bits.
pub open spec fn float_operands(n: Nx, vs: Seq<Val>, k: int) -> bool {
    &&& vs.len() >= k
    &&& forall|j: int| vs.len() - k <= j < vs.len() ==> match n {
        Nx::N32 => #[trigger] vs[j] is F32,
        Nx::N64 => vs[j] is F64,
    }
}

/// A function call being executed.
#[derive(Debug)]
pub struct Frame<'m> {
    pub inst_id: usize,
    /// The number of results of the function.
    pub arity: usize,
    /// Where to continue in the caller.
    pub ret: crate::parser::Parser<'m>,
    pub locals: Vec<Val>,
    /// The index of the function among those defined by its module.
    pub func: usize,
    /// The position in the branch table of the function.
    pub stp: usize,
    /// The length of the value stack of the thread before this call.
    pub prev_stack: usize,
    /// The number of labels of the function that are entered.
    pub labels_cnt: usize,
}

impl<'m> Frame<'m> {
    pub fn new(
        inst_id: usize,
        arity: usize,
        ret: crate::parser::Parser<'m>,
        locals: Vec<Val>,
        func: usize,
        prev_stack: usize,
    ) -> (r: Frame<'m>)
        ensures
            r.inst_id == inst_id,
            r.arity == arity,
            r.ret == ret,
            r.locals@ == locals@,
            r.func == func,
            r.stp == 0,
            r.prev_stack == prev_stack,
            r.labels_cnt == 1,
    {
        Frame { inst_id, arity, ret, locals, func, stp: 0, prev_stack, labels_cnt: 1 }
    }

    /// Skips the branch table entry of a branch that is not taken.
    pub fn skip_jump(&mut self) -> (r: Result<(), Error>)
        ensures
            match r {
                Ok(()) => old(self).stp < usize::MAX && final(self).stp == old(self).stp + 1,
                Err(e) => old(self).stp == usize::MAX && e == Error::Invalid,
            },
            final(self).inst_id == old(self).inst_id,
            final(self).arity == old(self).arity,
            final(self).ret == old(self).ret,
            final(self).locals == old(self).locals,
            final(self).func == old(self).func,
            final(self).prev_stack == old(self).prev_stack,
            final(self).labels_cnt == old(self).labels_cnt,
    {
        check(self.stp < usize::MAX)?;
        self.stp = self.stp + 1;
        Ok(())
    }
}

/// A computation in progress: the position in the code, the calls and the values.
#[derive(Debug)]
pub struct Thread<'m> {
    pub parser: crate::parser::Parser<'m>,
    pub frames: Vec<Frame<'m>>,
    pub values: Vec<Val>,
}

/// The result of a comparison as a value.
pub open spec fn bool_val(b: bool) -> Val {
    Val::I32(if b {
        1
    } else {
        0
    })
}

/// Applies a test operator.
pub open spec fn spec_itestop(n: Nx, op: ITestOp, x: Val) -> Option<Val> {
    match (n, x) {
        (Nx::N32, Val::I32(a)) => Some(bool_val(op.spec_n32(a))),
        (Nx::N64, Val::I64(a)) => Some(bool_val(op.spec_n64(a))),
        _ => None,
    }
}

/// Applies a comparison operator.
pub open spec fn spec_irelop(n: Nx, op: IRelOp, x: Val, y: Val) -> Option<Val> {
    match (n, x, y) {
        (Nx::N32, Val::I32(a), Val::I32(b)) => Some(bool_val(op.spec_n32(a, b))),
        (Nx::N64, Val::I64(a), Val::I64(b)) => Some(bool_val(op.spec_n64(a, b))),
        _ => None,
    }
}

/// Applies a unary operator: `None` for a type mismatch, `Some(None)` for a trap.
pub open spec fn spec_iunop(n: Nx, op: IUnOp, x: Val) -> Option<Option<Val>> {
    match (n, x) {
        (Nx::N32, Val::I32(a)) => Some(
            match op.spec_n32(a) {
                Some(z) => Some(Val::I32(z)),
                None => None,
            },
        ),
        (Nx::N64, Val::I64(a)) => Some(
            match op.spec_n64(a) {
                Some(z) => Some(Val::I64(z)),
                None => None,
            },
        ),
        _ => None,
    }
}

/// Applies a binary operator: `None` for a type mismatch, `Some(None)` for a trap.
pub open spec fn spec_ibinop(n: Nx, op: IBinOp, x: Val, y: Val) -> Option<Option<Val>> {
    match (n, x, y) {
        (Nx::N32, Val::I32(a), Val::I32(b)) => Some(
            match op.spec_n32(a, b) {
                Some(z) => Some(Val::I32(z)),
                None => None,
            },
        ),
        (Nx::N64, Val::I64(a), Val::I64(b)) => Some(
            match op.spec_n64(a, b) {
                Some(z) => Some(Val::I64(z)),
                None => None,
            },
        ),
        _ => None,
    }
}

/// Sign-extends the low bits of an integer value.
pub open spec fn spec_extend(b: Bx, x: Val) -> Option<Val> {
    match (b, x) {
        (Bx::N32B8, Val::I32(a)) => Some(Val::I32(a as i8 as u32)),
        (Bx::N32B16, Val::I32(a)) => Some(Val::I32(a as i16 as u32)),
        (Bx::N64B8, Val::I64(a)) => Some(Val::I64(a as i8 as u64)),
        (Bx::N64B16, Val::I64(a)) => Some(Val::I64(a as i16 as u64)),
        (Bx::N64B32, Val::I64(a)) => Some(Val::I64(a as i32 as u64)),
        _ => None,
    }
}

/// What the integer extensions and wrapping give: sign extension keeps the low 8, 16 or 32 bits
/// and sets all the bits above them to copies of the highest kept bit; extending a 32-bit value to
/// 64 bits fills the high bits with zeros when unsigned and with copies of bit 31 when signed;
/// wrapping keeps the low 32 bits.
pub proof fn lemma_extend_values(a: u32, b: u64)
    ensures
        spec_extend(Bx::N32B8, Val::I32(a)) == Some(
            Val::I32(if a % 0x100 < 0x80 { a % 0x100 } else { (a % 0x100) | 0xffff_ff00u32 }),
        ),
        spec_extend(Bx::N32B16, Val::I32(a)) == Some(
            Val::I32(
                if a % 0x1_0000 < 0x8000 {
                    a % 0x1_0000
                } else {
                    (a % 0x1_0000) | 0xffff_0000u32
                },
            ),
        ),
        spec_extend(Bx::N64B8, Val::I64(b)) == Some(
            Val::I64(
                if b % 0x100 < 0x80 {
                    b % 0x100
                } else {
                    (b % 0x100) | 0xffff_ffff_ffff_ff00u64
                },
            ),
        ),
        spec_extend(Bx::N64B16, Val::I64(b)) == Some(
            Val::I64(
                if b % 0x1_0000 < 0x8000 {
                    b % 0x1_0000
                } else {
                    (b % 0x1_0000) | 0xffff_ffff_ffff_0000u64
                },
            ),
        ),
        spec_extend(Bx::N64B32, Val::I64(b)) == Some(
            Val::I64(
                if b % 0x1_0000_0000 < 0x8000_0000 {
                    b % 0x1_0000_0000
                } else {
                    (b % 0x1_0000_0000) | 0xffff_ffff_0000_0000u64
                },
            ),
        ),
        spec_icvtop(CvtOp::Wrap, Val::I64(b)) matches Some(Val::I32(r)) && r as u64 == b
            % 0x1_0000_0000,
        spec_icvtop(CvtOp::Extend(Sx::U), Val::I32(a)) matches Some(Val::I64(r)) && r < 0x1_0000_0000
            && r as u32 == a,
        spec_icvtop(CvtOp::Extend(Sx::S), Val::I32(a)) == Some(
            Val::I64(
                if a < 0x8000_0000 {
                    a as u64
                } else {
                    (a as u64) | 0xffff_ffff_0000_0000u64
                },
            ),
        ),
{
    crate::numeric::lemma_sign_extend32(a);
    crate::numeric::lemma_sign_extend64(b);
    crate::numeric::lemma_extend_wrap(a, b);
}

/// Loading one byte: unsigned, the byte; signed, the byte with all the bits above it copies of
/// its bit 7, as the sign extension instructions give it.
pub proof fn lemma_load_byte(b: u8)
    ensures
        spec_load(NumType::I32, Sx::U, seq![b]) == Val::I32(b as u32),
        spec_load(NumType::I64, Sx::U, seq![b]) == Val::I64(b as u64),
        Some(spec_load(NumType::I32, Sx::S, seq![b])) == spec_extend(Bx::N32B8, Val::I32(b as u32)),
        Some(spec_load(NumType::I64, Sx::S, seq![b])) == spec_extend(Bx::N64B8, Val::I64(b as u64)),
{
    lemma2_to64();
    let s = seq![b];
    assert(s.drop_first() =~= Seq::<u8>::empty());
    assert(le_value(s.drop_first()) == 0);
    assert(s[0] == b);
    assert(le_value(s) == b);
    lemma_extend_values(b as u32, b as u64);
    crate::numeric::lemma_or_high_bits(b as u32, b as u64);
    assert((b as u32) % 0x100 == b as u32);
    assert((b as u64) % 0x100 == b as u64);
}

/// Applies an integer conversion or a reinterpretation.
pub open spec fn spec_icvtop(op: CvtOp, x: Val) -> Option<Val> {
    match (op, x) {
        (CvtOp::Wrap, Val::I64(a)) => Some(Val::I32(a as u32)),
        (CvtOp::Extend(Sx::U), Val::I32(a)) => Some(Val::I64(a as u64)),
        (CvtOp::Extend(Sx::S), Val::I32(a)) => Some(Val::I64(a as i32 as u64)),
        (CvtOp::IReinterpret(Nx::N32), Val::F32(a)) => Some(Val::I32(a)),
        (CvtOp::IReinterpret(Nx::N64), Val::F64(a)) => Some(Val::I64(a)),
        (CvtOp::FReinterpret(Nx::N32), Val::I32(a)) => Some(Val::F32(a)),
        (CvtOp::FReinterpret(Nx::N64), Val::I64(a)) => Some(Val::F64(a)),
        _ => None,
    }
}

/// The magnitude of the first float with the sign of the second, on their bits.
pub open spec fn spec_copysign(x: Val, y: Val) -> Val {
    match (x, y) {
        (Val::F32(a), Val::F32(b)) => Val::F32((a & 0x7fff_ffff) | (b & 0x8000_0000)),
        (Val::F64(a), Val::F64(b)) => Val::F64(
            (a & 0x7fff_ffff_ffff_ffff) | (b & 0x8000_0000_0000_0000),
        ),
        _ => x,
    }
}

/// The values after an instruction that computes on the values alone (constants, integer
/// operations and null references), or `None` if the operands are missing or of the wrong type,
/// or the operation traps. Instructions on floats and the other instructions give `None` too:
/// `is_pure_instr` tells them apart.
pub open spec fn spec_pure_instr(i: Instr, vs: Seq<Val>) -> Option<Seq<Val>> {
    let n = vs.len();
    match i {
        Instr::I32Const(c) => Some(vs.push(Val::I32(c))),
        Instr::I64Const(c) => Some(vs.push(Val::I64(c))),
        Instr::F32Const(c) => Some(vs.push(Val::F32(c))),
        Instr::F64Const(c) => Some(vs.push(Val::F64(c))),
        Instr::ITestOp(nx, op) => if n >= 1 && spec_itestop(nx, op, vs.last()) is Some {
            Some(vs.drop_last().push(spec_itestop(nx, op, vs.last())->Some_0))
        } else {
            None
        },
        Instr::IRelOp(nx, op) => if n >= 2 && spec_irelop(nx, op, vs[n - 2], vs.last()) is Some {
            Some(vs.drop_last().drop_last().push(spec_irelop(nx, op, vs[n - 2], vs.last())->Some_0))
        } else {
            None
        },
        Instr::IUnOp(nx, op) => if n >= 1 && spec_iunop(nx, op, vs.last()) matches Some(Some(_)) {
            Some(vs.drop_last().push(spec_iunop(nx, op, vs.last())->Some_0->Some_0))
        } else {
            None
        },
        Instr::IBinOp(nx, op) => if n >= 2 && spec_ibinop(nx, op, vs[n - 2], vs.last()) matches Some(
            Some(_),
        ) {
            Some(
                vs.drop_last().drop_last().push(
                    spec_ibinop(nx, op, vs[n - 2], vs.last())->Some_0->Some_0,
                ),
            )
        } else {
            None
        },
        Instr::IExtend(b) => if n >= 1 && spec_extend(b, vs.last()) is Some {
            Some(vs.drop_last().push(spec_extend(b, vs.last())->Some_0))
        } else {
            None
        },
        Instr::CvtOp(op) => if n >= 1 && spec_icvtop(op, vs.last()) is Some {
            Some(vs.drop_last().push(spec_icvtop(op, vs.last())->Some_0))
        } else {
            None
        },
        Instr::RefNull(t) => Some(vs.push(Val::Null(t))),
        Instr::RefIsNull => if n >= 1 {
            Some(vs.drop_last().push(bool_val(vs.last() is Null)))
        } else {
            None
        },
        _ => None,
    }
}

/// Whether an instruction computes on the values alone: constants, integer operations and null
/// references.
pub open spec fn is_pure_instr(i: Instr) -> bool {
    ||| i is I32Const
    ||| i is I64Const
    ||| i is F32Const
    ||| i is F64Const
    ||| i is ITestOp
    ||| i is IRelOp
    ||| i is IUnOp
    ||| i is IBinOp
    ||| i is IExtend
    ||| (i matches Instr::CvtOp(op) && !is_float_cvtop(op))
    ||| i is RefNull
    ||| i is RefIsNull
}

/// Whether an instruction that computes on the values traps on its well-typed operands (integer
/// division by zero and signed overflow of division).
pub open spec fn pure_instr_traps(i: Instr, vs: Seq<Val>) -> bool {
    let n = vs.len();
    match i {
        Instr::IUnOp(nx, op) => n >= 1 && spec_iunop(nx, op, vs.last()) == Some(None::<Val>),
        Instr::IBinOp(nx, op) => n >= 2 && spec_ibinop(nx, op, vs[n - 2], vs.last()) == Some(
            None::<Val>,
        ),
        _ => false,
    }
}

/// Whether a conversion involves floating-point arithmetic.
pub open spec fn is_float_cvtop(op: CvtOp) -> bool {
    op is Trunc || op is TruncSat || op is Convert || op is Demote || op is Promote
}

/// The value of little-endian bytes.
pub open spec fn le_value(s: Seq<u8>) -> nat
    decreases s.len(),
{
    if s.len() == 0 {
        0
    } else {
        (s[0] + 256 * le_value(s.drop_first())) as nat
    }
}

/// The number `x` without its `k` low bytes.
pub open spec fn shr_bytes(x: nat, k: nat) -> nat
    decreases k,
{
    if k == 0 {
        x
    } else {
        shr_bytes(x, (k - 1) as nat) / 256
    }
}

/// The little-endian bytes of the `n` low bytes of `x`.
pub open spec fn le_bytes(x: nat, n: nat) -> Seq<u8>
    decreases n,
{
    if n == 0 {
        Seq::empty()
    } else {
        le_bytes(x, (n - 1) as nat).push((shr_bytes(x, (n - 1) as nat) % 256) as u8)
    }
}

proof fn lemma_le_bytes_len(x: nat, n: nat)
    ensures
        le_bytes(x, n).len() == n,
    decreases n,
{
    if n > 0 {
        lemma_le_bytes_len(x, (n - 1) as nat);
    }
}

/// The value loaded from `bytes` as a number of type `t`, sign-extended if `sx` is signed.
pub open spec fn spec_load(t: NumType, sx: Sx, bytes: Seq<u8>) -> Val {
    let n = 8 * bytes.len();
    let v = le_value(bytes);
    let w: nat = if t is I32 || t is F32 {
        32
    } else {
        64
    };
    let x = if sx is S && v >= pow2((n - 1) as nat) {
        v + pow2(w) - pow2(n)
    } else {
        v as int
    };
    match t {
        NumType::I32 => Val::I32(x as u32),
        NumType::I64 => Val::I64(x as u64),
        NumType::F32 => Val::F32(x as u32),
        NumType::F64 => Val::F64(x as u64),
    }
}

/// The bits of a number value.
pub open spec fn num_bits(t: NumType, v: Val) -> Option<nat> {
    match (t, v) {
        (NumType::I32, Val::I32(x)) => Some(x as nat),
        (NumType::I64, Val::I64(x)) => Some(x as nat),
        (NumType::F32, Val::F32(x)) => Some(x as nat),
        (NumType::F64, Val::F64(x)) => Some(x as nat),
        _ => None,
    }
}

/// The address accessed by a memory instruction, if it does not overflow.
pub open spec fn effective_address(i: u32, m: MemArg, len: nat, mem: &Memory) -> Option<nat> {
    let ea = i + m.offset;
    if ea <= u32::MAX && ea + len <= u32::MAX && ea + len <= mem.spec_len() {
        Some(ea as nat)
    } else {
        None
    }
}

impl<'m> Thread<'m> {
    /// Pushes a value.
    pub fn push_value(&mut self, value: Val)
        ensures
            final(self).values@ == old(self).values@.push(value),
            final(self).frames == old(self).frames,
            final(self).parser == old(self).parser,
    {
        self.values.push(value);
    }

    /// Pops a value.
    pub fn pop_value(&mut self) -> (r: Result<Val, Error>)
        ensures
            final(self).frames == old(self).frames,
            final(self).parser == old(self).parser,
            if old(self).values@.len() > 0 {
                r == Ok::<Val, Error>(old(self).values@.last()) && final(self).values@ == old(self).values@.drop_last()
            } else {
                r == Err::<Val, Error>(Error::Invalid) && final(self).values@ == old(self).values@
            },
    {
        match self.values.pop() {
            Some(x) => Ok(x),
            None => Err(invalid()),
        }
    }

    /// The value on top of the stack.
    pub fn peek_value(&self) -> (r: Result<Val, Error>)
        ensures
            if self.values@.len() > 0 {
                r == Ok::<Val, Error>(self.values@.last())
            } else {
                r == Err::<Val, Error>(Error::Invalid)
            },
    {
        if self.values.len() > 0 {
            Ok(self.values[self.values.len() - 1])
        } else {
            Err(invalid())
        }
    }

    /// Pops the top `n` values, in order.
    pub fn pop_values(&mut self, n: usize) -> (r: Result<Vec<Val>, Error>)
        ensures
            final(self).frames == old(self).frames,
            final(self).parser == old(self).parser,
            if n <= old(self).values@.len() {
                r matches Ok(v) && v@ == old(self).values@.skip(old(self).values@.len() - n)
                    && final(self).values@ == old(self).values@.take(old(self).values@.len() - n)
            } else {
                r == Err::<Vec<Val>, Error>(Error::Invalid) && final(self).values@ == old(self).values@
            },
    {
        let len = self.values.len();
        check(n <= len)?;
        let v = self.values.split_off(len - n);
        Ok(v)
    }

    /// Pushes values, in order.
    pub fn push_values(&mut self, values: &[Val])
        ensures
            final(self).values@ == old(self).values@ + values@,
            final(self).frames == old(self).frames,
            final(self).parser == old(self).parser,
    {
        let mut i: usize = 0;
        while i < values.len()
            invariant
                i <= values@.len(),
                self.values@ == old(self).values@ + values@.take(i as int),
                self.frames == old(self).frames,
                self.parser == old(self).parser,
            decreases values@.len() - i,
        {
            self.values.push(values[i]);
            i = i + 1;
            proof {
                assert(self.values@ =~= old(self).values@ + values@.take(i as int));
            }
        }
        proof {
            assert(values@.take(i as int) =~= values@);
        }
    }

    /// Pushes the value if any, else traps.
    pub fn push_value_or_trap(&mut self, value: Option<Val>) -> (r: Result<(), Error>)
        ensures
            final(self).frames == old(self).frames,
            final(self).parser == old(self).parser,
            match value {
                Some(x) => r is Ok && final(self).values@ == old(self).values@.push(x),
                None => r == Err::<(), Error>(Error::Trap) && final(self).values@ == old(self).values@,
            },
    {
        match value {
            Some(x) => {
                self.push_value(x);
                Ok(())
            },
            None => Err(trap()),
        }
    }

    /// Applies a test operator to the top value.
    pub fn itestop(&mut self, n: Nx, op: ITestOp) -> (r: Result<(), Error>)
        ensures
            final(self).frames == old(self).frames,
            final(self).parser == old(self).parser,
            r is Ok <==> old(self).values@.len() >= 1 && spec_itestop(
                n,
                op,
                old(self).values@.last(),
            ) is Some,
            r is Ok ==> final(self).values@ == old(self).values@.drop_last().push(
                spec_itestop(n, op, old(self).values@.last())->Some_0,
            ),
    {
        let x = self.pop_value()?;
        let z = match n {
            Nx::N32 => op.n32(x.unwrap_i32()?),
            Nx::N64 => op.n64(x.unwrap_i64()?),
        };
        self.push_value(Val::I32(if z {
            1
        } else {
            0
        }));
        Ok(())
    }

    /// Applies a comparison operator to the two top values.
    pub fn irelop(&mut self, n: Nx, op: IRelOp) -> (r: Result<(), Error>)
        ensures
            final(self).frames == old(self).frames,
            final(self).parser == old(self).parser,
            r is Ok <==> old(self).values@.len() >= 2 && spec_irelop(
                n,
                op,
                old(self).values@[old(self).values@.len() - 2],
                old(self).values@.last(),
            ) is Some,
            r is Ok ==> final(self).values@ == old(self).values@.drop_last().drop_last().push(
                spec_irelop(
                    n,
                    op,
                    old(self).values@[old(self).values@.len() - 2],
                    old(self).values@.last(),
                )->Some_0,
            ),
    {
        let y = self.pop_value()?;
        let x = self.pop_value()?;
        let z = match n {
            Nx::N32 => op.n32(x.unwrap_i32()?, y.unwrap_i32()?),
            Nx::N64 => op.n64(x.unwrap_i64()?, y.unwrap_i64()?),
        };
        self.push_value(Val::I32(if z {
            1
        } else {
            0
        }));
        Ok(())
    }

    /// Applies a unary operator to the top value.
    pub fn iunop(&mut self, n: Nx, op: IUnOp) -> (r: Result<(), Error>)
        ensures
            final(self).frames == old(self).frames,
            final(self).parser == old(self).parser,
            r is Ok <==> (old(self).values@.len() >= 1 && spec_iunop(
                n,
                op,
                old(self).values@.last(),
            ) matches Some(Some(_))),
            r is Ok ==> final(self).values@ == old(self).values@.drop_last().push(
                spec_iunop(n, op, old(self).values@.last())->Some_0->Some_0,
            ),
            (old(self).values@.len() >= 1 && spec_iunop(n, op, old(self).values@.last()) == Some(
                None::<Val>,
            )) ==> r == Err::<(), Error>(Error::Trap),
    {
        let x = self.pop_value()?;
        let z = match n {
            Nx::N32 => match op.n32(x.unwrap_i32()?) {
                Some(z) => Some(Val::I32(z)),
                None => None,
            },
            Nx::N64 => match op.n64(x.unwrap_i64()?) {
                Some(z) => Some(Val::I64(z)),
                None => None,
            },
        };
        self.push_value_or_trap(z)
    }

    /// Applies a binary operator to the two top values.
    pub fn ibinop(&mut self, n: Nx, op: IBinOp) -> (r: Result<(), Error>)
        ensures
            final(self).frames == old(self).frames,
            final(self).parser == old(self).parser,
            r is Ok <==> (old(self).values@.len() >= 2 && spec_ibinop(
                n,
                op,
                old(self).values@[old(self).values@.len() - 2],
                old(self).values@.last(),
            ) matches Some(Some(_))),
            r is Ok ==> final(self).values@ == old(self).values@.drop_last().drop_last().push(
                spec_ibinop(
                    n,
                    op,
                    old(self).values@[old(self).values@.len() - 2],
                    old(self).values@.last(),
                )->Some_0->Some_0,
            ),
            (old(self).values@.len() >= 2 && spec_ibinop(
                n,
                op,
                old(self).values@[old(self).values@.len() - 2],
                old(self).values@.last(),
            ) == Some(None::<Val>)) ==> r == Err::<(), Error>(Error::Trap),
    {
        let y = self.pop_value()?;
        let x = self.pop_value()?;
        let z = match n {
            Nx::N32 => match op.n32(x.unwrap_i32()?, y.unwrap_i32()?) {
                Some(z) => Some(Val::I32(z)),
                None => None,
            },
            Nx::N64 => match op.n64(x.unwrap_i64()?, y.unwrap_i64()?) {
                Some(z) => Some(Val::I64(z)),
                None => None,
            },
        };
        self.push_value_or_trap(z)
    }

    /// Sign-extends the top value.
    pub fn extend(&mut self, b: Bx) -> (r: Result<(), Error>)
        ensures
            final(self).frames == old(self).frames,
            final(self).parser == old(self).parser,
            r is Ok <==> old(self).values@.len() >= 1 && spec_extend(
                b,
                old(self).values@.last(),
            ) is Some,
            r is Ok ==> final(self).values@ == old(self).values@.drop_last().push(
                spec_extend(b, old(self).values@.last())->Some_0,
            ),
    {
        let x = self.pop_value()?;
        let z = match b {
            Bx::N32B8 => Val::I32(x.unwrap_i32()? as i8 as u32),
            Bx::N32B16 => Val::I32(x.unwrap_i32()? as i16 as u32),
            Bx::N64B8 => Val::I64(x.unwrap_i64()? as i8 as u64),
            Bx::N64B16 => Val::I64(x.unwrap_i64()? as i16 as u64),
            Bx::N64B32 => Val::I64(x.unwrap_i64()? as i32 as u64),
        };
        self.push_value(z);
        Ok(())
    }

    /// Applies a conversion to the top value, with `float` for floating-point arithmetic.
    pub fn cvtop<F: Float>(&mut self, op: CvtOp, float: &F) -> (r: Result<(), Error>)
        ensures
            final(self).frames == old(self).frames,
            final(self).parser == old(self).parser,
            !is_float_cvtop(op) ==> (r is Ok <==> old(self).values@.len() >= 1 && spec_icvtop(
                op,
                old(self).values@.last(),
            ) is Some),
            !is_float_cvtop(op) && r is Ok ==> final(self).values@ == old(self).values@.drop_last().push(spec_icvtop(op, old(self).values@.last())->Some_0),
            is_float_cvtop(op) && r is Ok ==> old(self).values@.len() >= 1 && final(self).values@.drop_last() == old(self).values@.drop_last() && final(self).values@.len()
                == old(self).values@.len(),
    {
        let x = self.pop_value()?;
        let z = match op {
            CvtOp::Wrap => Some(Val::I32(x.unwrap_i64()? as u32)),
            CvtOp::Extend(Sx::U) => Some(Val::I64(x.unwrap_i32()? as u64)),
            CvtOp::Extend(Sx::S) => Some(Val::I64(x.unwrap_i32()? as i32 as u64)),
            CvtOp::IReinterpret(Nx::N32) => Some(Val::I32(x.unwrap_f32()?)),
            CvtOp::IReinterpret(Nx::N64) => Some(Val::I64(x.unwrap_f64()?)),
            CvtOp::FReinterpret(Nx::N32) => Some(Val::F32(x.unwrap_i32()?)),
            CvtOp::FReinterpret(Nx::N64) => Some(Val::F64(x.unwrap_i64()?)),
            _ => float.convert(op, x),
        };
        self.push_value_or_trap(z)
    }

    /// Compares the two top floats.
    pub fn frelop<F: Float>(&mut self, n: Nx, op: crate::syntax::FRelOp, float: &F) -> (r: Result<(), Error>)
        ensures
            final(self).frames == old(self).frames,
            final(self).parser == old(self).parser,
            r is Ok <==> float_operands(n, old(self).values@, 2),
            r is Ok ==> old(self).values@.len() >= 2 && final(self).values@.drop_last() == old(self).values@.drop_last().drop_last() && final(self).values@.last() is I32,
            r is Ok ==> (final(self).values@.last() == Val::I32(0) || final(self).values@.last() == Val::I32(1)),
    {
        let y = self.pop_value()?;
        let x = self.pop_value()?;
        let (a, b) = match n {
            Nx::N32 => (x.unwrap_f32()? as u64, y.unwrap_f32()? as u64),
            Nx::N64 => (x.unwrap_f64()?, y.unwrap_f64()?),
        };
        let z = float.relop(n, op, a, b);
        self.push_value(Val::I32(if z {
            1
        } else {
            0
        }));
        Ok(())
    }

    /// Applies a unary operator to the top float.
    pub fn funop<F: Float>(&mut self, n: Nx, op: crate::syntax::FUnOp, float: &F) -> (r: Result<(), Error>)
        ensures
            final(self).frames == old(self).frames,
            final(self).parser == old(self).parser,
            r is Ok <==> float_operands(n, old(self).values@, 1),
            r is Ok ==> old(self).values@.len() >= 1 && final(self).values@.drop_last() == old(self).values@.drop_last() && final(self).values@.last().spec_type() == old(self).values@.last().spec_type(),
    {
        let x = self.pop_value()?;
        let z = match n {
            Nx::N32 => Val::F32(float.unop(n, op, x.unwrap_f32()? as u64) as u32),
            Nx::N64 => Val::F64(float.unop(n, op, x.unwrap_f64()?)),
        };
        self.push_value(z);
        Ok(())
    }

    /// Applies a binary operator to the two top floats.
    pub fn fbinop<F: Float>(&mut self, n: Nx, op: crate::syntax::FBinOp, float: &F) -> (r: Result<(), Error>)
        ensures
            final(self).frames == old(self).frames,
            final(self).parser == old(self).parser,
            r is Ok <==> float_operands(n, old(self).values@, 2),
            r is Ok ==> old(self).values@.len() >= 2 && final(self).values@.drop_last() == old(self).values@.drop_last().drop_last() && final(self).values@.last().spec_type() == old(self).values@.last().spec_type(),
            r is Ok && op is CopySign ==> final(self).values@.last() == spec_copysign(
                old(self).values@[old(self).values@.len() - 2],
                old(self).values@.last(),
            ),
    {
        let y = self.pop_value()?;
        let x = self.pop_value()?;
        let z = match (n, op) {
            (Nx::N32, crate::syntax::FBinOp::CopySign) => {
                let (a, b) = (x.unwrap_f32()?, y.unwrap_f32()?);
                Val::F32((a & 0x7fff_ffff) | (b & 0x8000_0000))
            },
            (Nx::N64, crate::syntax::FBinOp::CopySign) => {
                let (a, b) = (x.unwrap_f64()?, y.unwrap_f64()?);
                Val::F64((a & 0x7fff_ffff_ffff_ffff) | (b & 0x8000_0000_0000_0000))
            },
            (Nx::N32, _) => Val::F32(
                float.binop(n, op, x.unwrap_f32()? as u64, y.unwrap_f32()? as u64) as u32,
            ),
            (Nx::N64, _) => Val::F64(float.binop(n, op, x.unwrap_f64()?, y.unwrap_f64()?)),
        };
        self.push_value(z);
        Ok(())
    }

    /// Loads a number of type `t` from `n / 8` bytes of the memory at the popped address.
    pub fn load(&mut self, mem: &Memory, t: NumType, n: usize, sx: Sx, m: MemArg) -> (r: Result<(), Error>)
        requires
            n == 8 || n == 16 || n == 32 || n == 64,
            n == 64 ==> t is I64 || t is F64,
            sx is S ==> (t is I32 && n < 32) || (t is I64 && n < 64),
        ensures
            final(self).frames == old(self).frames,
            final(self).parser == old(self).parser,
            r is Ok <==> (old(self).values@.last() matches Val::I32(i) && old(self).values@.len()
                >= 1 && effective_address(i, m, (n / 8) as nat, mem) is Some),
            r is Ok ==> {
                let i = old(self).values@.last()->I32_0;
                let ea = effective_address(i, m, (n / 8) as nat, mem)->Some_0;
                final(self).values@ == old(self).values@.drop_last().push(
                    spec_load(t, sx, mem.data@.subrange(ea as int, ea + n / 8)),
                )
            },
            (old(self).values@.last() matches Val::I32(i) && old(self).values@.len() >= 1
                && effective_address(i, m, (n / 8) as nat, mem) is None) ==> r == Err::<(), Error>(
                Error::Trap,
            ),
    {
        let i = self.pop_value()?.unwrap_i32()?;
        let len = n / 8;
        let ea = i as u64 + m.offset as u64;
        if ea > u32::MAX as u64 || ea + len as u64 > u32::MAX as u64 || ea + len as u64
            > mem.len() as u64 {
            return Err(trap());
        }
        let ea = ea as usize;
        let ghost bytes = mem.data@.subrange(ea as int, ea + len);
        proof {
            lemma2_to64();
        }
        let mut v: u64 = 0;
        let mut k: usize = len;
        proof {
            assert(bytes.skip(len as int) =~= Seq::<u8>::empty());
        }
        while k > 0
            invariant
                k <= len,
                len == n / 8,
                n == 8 || n == 16 || n == 32 || n == 64,
                ea + len <= mem.spec_len() <= mem.data@.len(),
                bytes == mem.data@.subrange(ea as int, ea + len),
                v == le_value(bytes.skip(k as int)),
                v < pow2((8 * (len - k)) as nat),
            decreases k,
        {
            let b = mem.data[ea + k - 1];
            proof {
                lemma2_to64();
                assert(bytes.skip(k - 1).drop_first() =~= bytes.skip(k as int));
                assert(bytes.skip(k - 1)[0] == b);
                vstd::arithmetic::power2::lemma_pow2_adds((8 * (len - k)) as nat, 8);
                assert((8 * (len - k + 1)) as nat == (8 * (len - k)) as nat + 8);
                assert(pow2((8 * (len - k + 1)) as nat) <= pow2(64)) by {
                    if len - k + 1 < 8 {
                        vstd::arithmetic::power2::lemma_pow2_strictly_increases(
                            (8 * (len - k + 1)) as nat,
                            64,
                        );
                    }
                }
                let p = pow2((8 * (len - k)) as nat) as int;
                assert(b + 256 * v < 256 * p) by (nonlinear_arith)
                    requires
                        v < p,
                        b < 256,
                ;
                assert(pow2((8 * (len - k + 1)) as nat) == 256 * p);
                assert(256 * v < 0x1_0000_0000_0000_0000);
            }
            v = b as u64 + 256 * v;
            k = k - 1;
        }
        proof {
            assert(bytes.skip(0) =~= bytes);
        }
        let wide = match t {
            NumType::I32 | NumType::F32 => false,
            NumType::I64 | NumType::F64 => true,
        };
        let x: u64 = match sx {
            Sx::S => {
                let (half, full): (u64, u64) = if n == 8 {
                    (0x80, 0x100)
                } else if n == 16 {
                    (0x8000, 0x1_0000)
                } else {
                    (0x8000_0000, 0x1_0000_0000)
                };
                if v >= half {
                    if wide {
                        v + (0xffff_ffff_ffff_ffffu64 - full + 1)
                    } else {
                        v + (0x1_0000_0000u64 - full)
                    }
                } else {
                    v
                }
            },
            Sx::U => v,
        };
        let c = match t {
            NumType::I32 => Val::I32(x as u32),
            NumType::I64 => Val::I64(x),
            NumType::F32 => Val::F32(x as u32),
            NumType::F64 => Val::F64(x),
        };
        self.push_value(c);
        Ok(())
    }
}

impl<'m> Thread<'m> {
    /// Stores the low `n / 8` bytes of a popped number of type `t` at the popped address.
    pub fn store(&mut self, mem: &mut Memory, t: NumType, n: usize, m: MemArg) -> (r: Result<(), Error>)
        requires
            n == 8 || n == 16 || n == 32 || n == 64,
        ensures
            final(self).frames == old(self).frames,
            final(self).parser == old(self).parser,
            final(mem).size == old(mem).size,
            final(mem).max == old(mem).max,
            r is Ok <==> ({
                let vs = old(self).values@;
                &&& vs.len() >= 2
                &&& vs[vs.len() - 2] matches Val::I32(i)
                &&& num_bits(t, vs.last()) is Some
                &&& effective_address(i, m, (n / 8) as nat, old(mem)) is Some
            }),
            r is Ok ==> {
                let vs = old(self).values@;
                let i = vs[vs.len() - 2]->I32_0;
                let ea = effective_address(i, m, (n / 8) as nat, old(mem))->Some_0;
                &&& final(self).values@ == vs.drop_last().drop_last()
                &&& final(mem).data@ == old(mem).data@.take(ea as int) + le_bytes(
                    num_bits(t, vs.last())->Some_0,
                    (n / 8) as nat,
                ) + old(mem).data@.skip(ea + n / 8)
            },
            ({
                let vs = old(self).values@;
                &&& vs.len() >= 2
                &&& vs[vs.len() - 2] matches Val::I32(i)
                &&& num_bits(t, vs.last()) is Some
                &&& effective_address(i, m, (n / 8) as nat, old(mem)) is None
            }) ==> r == Err::<(), Error>(Error::Trap),
            r is Err ==> final(mem).data@ == old(mem).data@,
    {
        let c = self.pop_value()?;
        let i = self.pop_value()?.unwrap_i32()?;
        let bits: u64 = match t {
            NumType::I32 => c.unwrap_i32()? as u64,
            NumType::I64 => c.unwrap_i64()?,
            NumType::F32 => c.unwrap_f32()? as u64,
            NumType::F64 => c.unwrap_f64()?,
        };
        let len = n / 8;
        let ea = i as u64 + m.offset as u64;
        if ea > u32::MAX as u64 || ea + len as u64 > u32::MAX as u64 || ea + len as u64
            > mem.len() as u64 {
            return Err(trap());
        }
        let ea = ea as usize;
        let ghost d0 = mem.data@;
        let mut x = bits;
        let mut k: usize = 0;
        while k < len
            invariant
                k <= len,
                ea + len <= d0.len(),
                ea + len <= u32::MAX,
                mem.data@.len() == d0.len(),
                mem.size == old(mem).size,
                mem.max == old(mem).max,
                mem.data@ == d0.take(ea as int) + le_bytes(bits as nat, k as nat) + d0.skip(ea + k),
                x == shr_bytes(bits as nat, k as nat),
            decreases len - k,
        {
            proof {
                lemma_le_bytes_len(bits as nat, k as nat);
            }
            mem.data.set(ea + k, (x % 256) as u8);
            x = x / 256;
            k = k + 1;
            proof {
                lemma_le_bytes_len(bits as nat, k as nat);
                assert(mem.data@ =~= d0.take(ea as int) + le_bytes(bits as nat, k as nat) + d0.skip(
                    ea + k,
                ));
            }
        }
        Ok(())
    }
}

// ---------------------------------------------------------------------------------------------
// Stores.

/// The name of a host function.
#[derive(Debug, Copy, Clone)]
pub struct HostName<'m> {
    pub module: &'m str,
    pub name: &'m str,
}

/// Whether `a` comes strictly before `b` in lexicographic order.
pub open spec fn seq_lt(a: Seq<u8>, b: Seq<u8>) -> bool
    decreases a.len(),
{
    if a.len() == 0 {
        b.len() > 0
    } else if b.len() == 0 {
        false
    } else if a[0] != b[0] {
        a[0] < b[0]
    } else {
        seq_lt(a.drop_first(), b.drop_first())
    }
}

/// Compares byte strings in lexicographic order.
pub fn bytes_lt(a: &[u8], b: &[u8]) -> (r: bool)
    ensures
        r == seq_lt(a@, b@),
{
    let mut i: usize = 0;
    proof {
        assert(a@.skip(0) =~= a@);
        assert(b@.skip(0) =~= b@);
    }
    while i < a.len() && i < b.len()
        invariant
            i <= a@.len(),
            i <= b@.len(),
            a@.take(i as int) == b@.take(i as int),
            seq_lt(a@, b@) == seq_lt(a@.skip(i as int), b@.skip(i as int)),
        decreases a@.len() - i,
    {
        if a[i] != b[i] {
            proof {
                assert(a@.skip(i as int)[0] == a[i as int]);
                assert(b@.skip(i as int)[0] == b[i as int]);
            }
            return a[i] < b[i];
        }
        proof {
            assert(a@.skip(i as int).drop_first() =~= a@.skip(i + 1));
            assert(b@.skip(i as int).drop_first() =~= b@.skip(i + 1));
            assert(a@.take(i + 1) =~= a@.take(i as int).push(a@[i as int]));
            assert(b@.take(i + 1) =~= b@.take(i as int).push(b@[i as int]));
        }
        i = i + 1;
    }
    i < b.len()
}

impl<'m> HostName<'m> {
    pub open spec fn spec_lt(self, other: HostName<'m>) -> bool {
        let (a, b) = (self.module.spec_bytes(), other.module.spec_bytes());
        seq_lt(a, b) || (a == b && seq_lt(self.name.spec_bytes(), other.name.spec_bytes()))
    }

    /// Whether this name comes strictly before `other` (by module, then by name).
    pub fn lt(&self, other: &HostName<'m>) -> (r: bool)
        ensures
            r == self.spec_lt(*other),
    {
        let (a, b) = (self.module.as_bytes(), other.module.as_bytes());
        bytes_lt(a, b) || (crate::valid::bytes_eq(a, b) && bytes_lt(
            self.name.as_bytes(),
            other.name.as_bytes(),
        ))
    }

    /// Whether both names are equal.
    pub fn same(&self, other: &HostName<'m>) -> (r: bool)
        ensures
            r == (self.module.spec_bytes() == other.module.spec_bytes() && self.name.spec_bytes()
                == other.name.spec_bytes()),
    {
        crate::valid::bytes_eq(self.module.as_bytes(), other.module.as_bytes())
            && crate::valid::bytes_eq(self.name.as_bytes(), other.name.as_bytes())
    }
}

/// Whether a host function has the name of an import.
pub open spec fn named<'m>(h: HostName<'m>, import: crate::syntax::Import<'m>) -> bool {
    h.module.spec_bytes() == import.module.spec_bytes() && h.name.spec_bytes()
        == import.name.spec_bytes()
}

/// Whether no host function linked by name in `s` has the name of `import`.
pub open spec fn no_linked<'m>(s: Store<'m>, import: crate::syntax::Import<'m>) -> bool {
    &&& s.linked_len() <= s.funcs@.len()
    &&& forall|i: int| 0 <= i < s.linked_len() ==> !#[trigger] named(s.funcs@[i].0, import)
}

/// Whether `import` may be resolved to a fake host function of `s`: its module is the default
/// one and it imports a function with one `i32` result.
pub open spec fn fake_applies<'m>(
    s: Store<'m>,
    import: crate::syntax::Import<'m>,
    imp_type: crate::syntax::ExternType,
) -> bool {
    &&& s.func_default matches Some((m, _))
    &&& m.spec_bytes() == import.module.spec_bytes()
    &&& imp_type matches crate::syntax::ExternType::Func(t)
    &&& t@.results == seq![ValType::I32]
}

/// Whether `r` and `s1` are the outcome of resolving `import` of type `imp_type` to a fake host
/// function of `s0`: a fake one of that type is reused, or one is added; its index must fit.
pub open spec fn fake_resolved<'m>(
    s0: Store<'m>,
    s1: Store<'m>,
    import: crate::syntax::Import<'m>,
    imp_type: crate::syntax::ExternType,
    r: Result<Ptr, Error>,
) -> bool {
    let t = imp_type->Func_0@;
    let reused = exists|j: int| s0.linked_len() <= j < s0.funcs@.len() && #[trigger] s0.funcs@[j].1@ == t;
    &&& reused ==> (r is Ok <==> exists|j: int| s0.linked_len() <= j < s0.funcs@.len() && #[trigger] s0.funcs@[j].1@ == t && j <= INDEX_MASK
        && forall|k: int| s0.linked_len() <= k < j ==> s0.funcs@[k].1@ != t)
    &&& !reused ==> (r is Ok <==> s0.funcs@.len() <= INDEX_MASK)
    &&& r matches Ok(p) ==> {
        &&& p.spec_instance() == Side::Host
        &&& p.spec_index() < s1.funcs@.len()
        &&& s1.funcs@[p.spec_index() as int].1@ == t
        &&& p.spec_index() >= s0.linked_len()
        &&& s1.funcs@.take(s0.funcs@.len() as int) == s0.funcs@
        &&& s1.funcs@.len() <= s0.funcs@.len() + 1
    }
}

/// Whether no instance of `s` is named like the module of `import`, or the first one that is
/// exports nothing under its name.
pub open spec fn no_instance_export<'m>(s: Store<'m>, import: crate::syntax::Import<'m>) -> bool {
    forall|k: int| 0 <= k < s.insts@.len() && (#[trigger] s.insts@[k]).name.spec_bytes()
        == import.module.spec_bytes() && (forall|y: int| 0 <= y < k ==> s.insts@[y].name.spec_bytes()
        != import.module.spec_bytes()) ==> crate::module::spec_export(
        s.insts@[k].module.spec_sections(),
        import.name.spec_bytes(),
    ) == Ok::<Option<ExportDesc>, Error>(None)
}

/// Whether `p` is what the first instance of `s` named like the module of `import` exports under
/// its name, and, for a function, its type is the one of `imp_type`.
pub open spec fn export_resolved<'m>(
    s: Store<'m>,
    import: crate::syntax::Import<'m>,
    imp_type: crate::syntax::ExternType,
    p: Ptr,
) -> bool {
    exists|k: int| {
        &&& 0 <= k < s.insts@.len()
        &&& (#[trigger] s.insts@[k]).name.spec_bytes() == import.module.spec_bytes()
        &&& forall|y: int| 0 <= y < k ==> s.insts@[y].name.spec_bytes() != import.module.spec_bytes()
        &&& match crate::module::spec_export(s.insts@[k].module.spec_sections(), import.name.spec_bytes()) {
            Ok(Some(ExportDesc::Func(x))) => {
                &&& s.insts@[k].funcs.spec_ptr(k, x as int) == Some(p)
                &&& imp_type matches crate::syntax::ExternType::Func(t)
                &&& match p.spec_instance() {
                    Side::Host => p.spec_index() < s.funcs@.len() && s.funcs@[p.spec_index() as int].1@ == t@,
                    Side::Wasm(_) => wasm_func_type(s, p) == Some(t@),
                }
            },
            Ok(Some(ExportDesc::Table(x))) => s.insts@[k].tables.spec_ptr(k, x as int) == Some(p)
                && imp_type is Table,
            Ok(Some(ExportDesc::Mem(x))) => s.insts@[k].mems.spec_ptr(k, x as int) == Some(p)
                && imp_type is Mem,
            Ok(Some(ExportDesc::Global(x))) => s.insts@[k].globals.spec_ptr(k, x as int) == Some(p)
                && imp_type is Global,
            _ => false,
        }
    }
}

/// Whether the first instance of `s` named like the module of `import` exports under its name the
/// function at `p`, whose type is the one of `imp_type`.
pub open spec fn export_func_matches<'m>(
    s: Store<'m>,
    import: crate::syntax::Import<'m>,
    imp_type: crate::syntax::ExternType,
    p: Ptr,
) -> bool {
    exists|k: int| {
        &&& 0 <= k < s.insts@.len()
        &&& (#[trigger] s.insts@[k]).name.spec_bytes() == import.module.spec_bytes()
        &&& forall|y: int| 0 <= y < k ==> s.insts@[y].name.spec_bytes() != import.module.spec_bytes()
        &&& crate::module::spec_export(s.insts@[k].module.spec_sections(), import.name.spec_bytes()) matches Ok(
            Some(ExportDesc::Func(x)),
        )
        &&& s.insts@[k].funcs.spec_ptr(k, x as int) == Some(p)
        &&& imp_type matches crate::syntax::ExternType::Func(t)
        &&& match p.spec_instance() {
            Side::Host => p.spec_index() < s.funcs@.len() && s.funcs@[p.spec_index() as int].1@ == t@,
            Side::Wasm(_) => wasm_func_type(s, p) == Some(t@),
        }
    }
}

/// Whether the first instance named like the module of `import` exports under its name the item
/// `d`, which is found in the store at `p`.
pub open spec fn first_export<'m>(
    s: Store<'m>,
    import: crate::syntax::Import<'m>,
    k: int,
    d: ExportDesc,
) -> bool {
    &&& 0 <= k < s.insts@.len()
    &&& s.insts@[k].name.spec_bytes() == import.module.spec_bytes()
    &&& forall|y: int| 0 <= y < k ==> s.insts@[y].name.spec_bytes() != import.module.spec_bytes()
    &&& crate::module::spec_export(s.insts@[k].module.spec_sections(), import.name.spec_bytes())
        == Ok::<Option<ExportDesc>, Error>(Some(d))
}

/// Whether `p` is the global that the first instance named like the module of `import` exports
/// under its name, of a type that matches `imp_type`.
pub open spec fn export_global_matches<'m>(
    s: Store<'m>,
    import: crate::syntax::Import<'m>,
    imp_type: crate::syntax::ExternType,
    p: Ptr,
) -> bool {
    exists|k: int, x: u32| {
        &&& #[trigger] first_export(s, import, k, ExportDesc::Global(x))
        &&& s.insts@[k].globals.spec_ptr(k, x as int) == Some(p)
        &&& s.spec_global_loc(k, x as int) matches Some((gi, _))
        &&& crate::module::spec_section_entry(
            s.insts@[gi].module.spec_sections(),
            crate::syntax::SectionId::Global,
            p.spec_index(),
        ) matches Some(c)
        &&& crate::parser::spec_globaltype(c) matches Ok((t, _))
        &&& crate::syntax::ExternType::Global(t).spec_matches(&imp_type)
    }
}

/// Whether `p` is the memory that the first instance named like the module of `import` exports
/// under its name, of a type (whose minimum is its current size) that matches `imp_type`.
pub open spec fn export_mem_matches<'m>(
    s: Store<'m>,
    import: crate::syntax::Import<'m>,
    imp_type: crate::syntax::ExternType,
    p: Ptr,
) -> bool {
    exists|k: int| {
        &&& #[trigger] first_export(s, import, k, ExportDesc::Mem(0))
        &&& s.insts@[k].mems.spec_ptr(k, 0) == Some(p)
        &&& s.spec_mem_inst(k) matches Some(mi)
        &&& crate::module::spec_section_entry(
            s.insts@[mi].module.spec_sections(),
            crate::syntax::SectionId::Memory,
            p.spec_index(),
        ) matches Some(c)
        &&& crate::parser::spec_limits(c, crate::syntax::MEM_MAX) matches Ok((t, _))
        &&& crate::syntax::ExternType::Mem(
            crate::syntax::Limits { min: s.insts@[mi].mems.int.size, max: t.max },
        ).spec_matches(&imp_type)
    }
}

/// Whether `p` is the table that the first instance named like the module of `import` exports
/// under its name, of a type (whose minimum is its current size) that matches `imp_type`.
pub open spec fn export_table_matches<'m>(
    s: Store<'m>,
    import: crate::syntax::Import<'m>,
    imp_type: crate::syntax::ExternType,
    p: Ptr,
) -> bool {
    exists|k: int, x: u32| {
        &&& #[trigger] first_export(s, import, k, ExportDesc::Table(x))
        &&& s.insts@[k].tables.spec_ptr(k, x as int) == Some(p)
        &&& s.spec_table_loc(k, x as int) matches Some((ti, tk))
        &&& crate::module::spec_section_entry(
            s.insts@[ti].module.spec_sections(),
            crate::syntax::SectionId::Table,
            p.spec_index(),
        ) matches Some(c)
        &&& crate::parser::spec_tabletype(c) matches Ok((t, _))
        &&& s.insts@[ti].tables.int@[tk].elems@.len() <= u32::MAX
        &&& crate::syntax::ExternType::Table(
            crate::syntax::TableType {
                limits: crate::syntax::Limits {
                    min: s.insts@[ti].tables.int@[tk].elems@.len() as u32,
                    max: t.limits.max,
                },
                item: t.item,
            },
        ).spec_matches(&imp_type)
    }
}

/// Whether the sections `s` import nothing and declare no table, memory, global, element or data
/// segment, nor a start function: only types, functions, their exports and bodies, and custom
/// sections.
pub open spec fn declares_functions_only(s: Seq<u8>) -> bool {
    let none = Ok::<Option<Seq<u8>>, Error>(None);
    &&& crate::module::spec_find_section(s, crate::syntax::SectionId::Import) == none
    &&& crate::module::spec_find_section(s, crate::syntax::SectionId::Table) == none
    &&& crate::module::spec_find_section(s, crate::syntax::SectionId::Memory) == none
    &&& crate::module::spec_find_section(s, crate::syntax::SectionId::Global) == none
    &&& crate::module::spec_find_section(s, crate::syntax::SectionId::Element) == none
    &&& crate::module::spec_find_section(s, crate::syntax::SectionId::Data) == none
    &&& crate::module::spec_find_section(s, crate::syntax::SectionId::Start) == none
}

/// Identifies a store.
#[derive(Debug, Copy, Clone, PartialEq, Eq, Structural)]
pub struct StoreId(pub usize);

/// Identifies an instance within a store.
#[derive(Debug, Copy, Clone, PartialEq, Eq, Structural)]
pub struct InstId {
    pub store_id: usize,
    pub inst_id: usize,
}

impl InstId {
    /// Returns the identifier of the store of this instance.
    pub fn store_id(self) -> (r: StoreId)
        ensures
            r == StoreId(self.store_id),
    {
        StoreId(self.store_id)
    }
}

/// Items of a kind: the imported ones (by pointer) and those defined by the instance.
#[derive(Debug)]
pub struct Component<T> {
    pub ext: Vec<Ptr>,
    pub int: T,
}

impl<T> Component<T> {
    /// The pointer to item `x` of instance `inst_id`: an import, or an item of the instance if it
    /// fits in a pointer.
    pub open spec fn spec_ptr(&self, inst_id: int, x: int) -> Option<Ptr> {
        if 0 <= x < self.ext@.len() {
            Some(self.ext@[x])
        } else if 0 <= inst_id < INST_MASK && 0 <= x - self.ext@.len() <= INDEX_MASK {
            Some(Ptr::spec_new(Side::Wasm(inst_id as usize), (x - self.ext@.len()) as u32))
        } else {
            None
        }
    }
}

impl<T> Component<T> {
    /// The pointer to item `x` of instance `inst_id`, if it fits.
    pub fn ptr(&self, inst_id: usize, x: u32) -> (r: Result<Ptr, Error>)
        ensures
            match r {
                Ok(p) => if x < self.ext@.len() {
                    p == self.ext@[x as int]
                } else {
                    inst_id < INST_MASK && x - self.ext@.len() <= INDEX_MASK && p == Ptr::spec_new(
                        Side::Wasm(inst_id),
                        (x - self.ext@.len()) as u32,
                    )
                },
                Err(e) => e == Error::Invalid && x >= self.ext@.len() && !(inst_id < INST_MASK && x
                    - self.ext@.len() <= INDEX_MASK),
            },
    {
        if (x as usize) < self.ext.len() {
            Ok(self.ext[x as usize])
        } else {
            let k = x - self.ext.len() as u32;
            check(inst_id < INST_MASK as usize && k <= INDEX_MASK)?;
            Ok(Ptr::new(Side::Wasm(inst_id), k))
        }
    }
}

/// An instance of a module.
#[derive(Debug)]
pub struct Instance<'m> {
    /// The name by which other instances import from it (empty if none).
    pub name: &'m str,
    pub module: crate::module::Module<'m>,
    pub funcs: Component<()>,
    pub tables: Component<Vec<Table>>,
    pub mems: Component<Memory>,
    pub globals: Component<Vec<Global>>,
    /// Whether each element segment is dropped.
    pub elems: Vec<bool>,
    /// Whether each data segment is dropped.
    pub datas: Vec<bool>,
}

impl<'m> Instance<'m> {
    pub fn new(module: crate::module::Module<'m>) -> (r: Instance<'m>)
        ensures
            r.module == module,
            r.funcs.ext@.len() == 0,
            r.tables.ext@.len() == 0,
            r.tables.int@.len() == 0,
            r.mems.ext@.len() == 0,
            r.globals.ext@.len() == 0,
            r.globals.int@.len() == 0,
            r.elems@.len() == 0,
            r.datas@.len() == 0,
    {
        Instance {
            name: "",
            module,
            funcs: Component { ext: Vec::new(), int: () },
            tables: Component { ext: Vec::new(), int: Vec::new() },
            mems: Component { ext: Vec::new(), int: Memory::empty() },
            globals: Component { ext: Vec::new(), int: Vec::new() },
            elems: Vec::new(),
            datas: Vec::new(),
        }
    }
}

/// A thread waiting for the host to return from a call.
#[derive(Debug)]
pub struct Continuation<'m> {
    pub thread: Thread<'m>,
    /// The index of the host function.
    pub index: usize,
    pub args: Vec<Val>,
    /// The number of results of the host function.
    pub arity: usize,
}

/// Runtime store: instances, host functions and threads waiting for the host.
#[derive(Debug)]
pub struct Store<'m> {
    pub id: usize,
    pub insts: Vec<Instance<'m>>,
    pub funcs: Vec<(HostName<'m>, FuncType)>,
    /// The module name and the number of linked host functions, when unresolved imports of that
    /// module are linked to fake host functions.
    pub func_default: Option<(&'m str, usize)>,
    pub threads: Vec<Continuation<'m>>,
}

/// Whether `s1` and `r` are the outcome of linking a host function named `module` and `name` of
/// type `type_` in `s0`: it is appended when it can be linked, else nothing changes.
pub open spec fn linked_custom<'m>(
    s0: Store<'m>,
    s1: Store<'m>,
    module: &'m str,
    name: &'m str,
    type_: FuncType,
    r: Result<(), Error>,
) -> bool {
    &&& s1.id == s0.id
    &&& s1.insts@.len() == s0.insts@.len()
    &&& s1.func_default == s0.func_default
    &&& r is Ok <==> s0.can_link(module, name)
    &&& r is Err ==> s1 == s0
    &&& r is Ok ==> s1.insts == s0.insts && s1.threads == s0.threads
    &&& match r {
        Ok(()) => {
            &&& s0.func_default is None
            &&& s0.insts@.len() == 0
            &&& s0.funcs@.len() > 0 ==> s0.funcs@.last().0.spec_lt(HostName { module, name })
            &&& s1.funcs@ == s0.funcs@.push((HostName { module, name }, type_))
        },
        Err(e) => e == Error::Invalid && s1.funcs@ == s0.funcs@,
    }
}

/// The `n` values of type `i32`.
pub open spec fn i32_seq(n: nat) -> Seq<ValType> {
    Seq::new(n, |i: int| ValType::I32)
}

/// Whether `s1` and `r` are the outcome of linking a host function named `module` and `name` with
/// `params` parameters and `results` results of type `i32` in `s0`: at most 8 of each.
pub open spec fn linked_i32<'m>(
    s0: Store<'m>,
    s1: Store<'m>,
    module: &'m str,
    name: &'m str,
    params: usize,
    results: usize,
    r: Result<(), Error>,
) -> bool {
    &&& s1.id == s0.id
    &&& s1.insts@.len() == s0.insts@.len()
    &&& (params > 8 || results > 8) ==> r == Err::<(), Error>(Error::Invalid)
    &&& r is Ok <==> params <= 8 && results <= 8 && s0.can_link(module, name)
    &&& r is Err ==> r == Err::<(), Error>(Error::Invalid) && s1 == s0
    &&& r is Ok ==> s1.funcs@.drop_last() == s0.funcs@ && s1.funcs@.last().0 == (HostName {
        module,
        name,
    }) && s1.insts == s0.insts && s1.threads == s0.threads && s1.func_default == s0.func_default
    &&& r is Ok ==> s1.funcs@.len() == s0.funcs@.len() + 1 && s1.funcs@.last().1@.params == i32_seq(
        params as nat,
    ) && s1.funcs@.last().1@.results == i32_seq(results as nat)
}

/// Linking with `link_func` is linking with `link_func_custom` at the type whose parameters and
/// results are that many `i32` values: from the same store, with at most 8 of each, both give the
/// same result and the same store, the types of the host functions taken by their views.
pub proof fn lemma_link_func_is_custom<'m>(
    s0: Store<'m>,
    s1: Store<'m>,
    s2: Store<'m>,
    module: &'m str,
    name: &'m str,
    params: usize,
    results: usize,
    type_: FuncType,
    r1: Result<(), Error>,
    r2: Result<(), Error>,
)
    requires
        params <= 8,
        results <= 8,
        type_@.params == i32_seq(params as nat),
        type_@.results == i32_seq(results as nat),
        linked_i32(s0, s1, module, name, params, results, r1),
        linked_custom(s0, s2, module, name, type_, r2),
    ensures
        r1 is Ok <==> r2 is Ok,
        r1 is Err ==> r1 == r2,
        s1.id == s2.id,
        s1.insts == s2.insts,
        s1.threads == s2.threads,
        s1.func_default == s2.func_default,
        s1.funcs@.len() == s2.funcs@.len(),
        forall|i: int|
            0 <= i < s1.funcs@.len() ==> (#[trigger] s1.funcs@[i]).0 == s2.funcs@[i].0
                && s1.funcs@[i].1@ == s2.funcs@[i].1@,
{
    if r1 is Err {
        assert(r2 matches Err(e) && e == Error::Invalid);
        assert(r1 == Err::<(), Error>(Error::Invalid));
        assert(r2 == Err::<(), Error>(Error::Invalid));
    }
    if r1 is Ok {
        assert forall|i: int| 0 <= i < s1.funcs@.len() implies (#[trigger] s1.funcs@[i]).0
            == s2.funcs@[i].0 && s1.funcs@[i].1@ == s2.funcs@[i].1@ by {
            if i < s0.funcs@.len() {
                assert(s1.funcs@[i] == s1.funcs@.drop_last()[i]);
            } else {
                assert(s1.funcs@[i] == s1.funcs@.last());
            }
        }
    }
}

/// What happens to the host calls waiting in a store: a thread calls the host, the host answers
/// the last call, or neither.
pub enum HostEvent {
    Call,
    Answer,
    Other,
}

/// Whether the continuations waiting in `s1` follow from those in `s0` by the event `e`, as
/// `Thread::step`, `Thread::invoke` and `Call::resume` say.
pub open spec fn host_event<'m>(s0: Store<'m>, s1: Store<'m>, e: HostEvent) -> bool {
    match e {
        HostEvent::Call => s1.threads@.len() == s0.threads@.len() + 1 && s1.threads@.drop_last()
            == s0.threads@,
        HostEvent::Answer => s0.threads@.len() > 0 && s1.threads@ == s0.threads@.drop_last(),
        HostEvent::Other => s1.threads@ == s0.threads@,
    }
}

/// The host calls made and not answered after the first `k` events, each as the continuation
/// that its call left in the store, the latest last.
pub open spec fn pending_calls<'m>(stores: Seq<Store<'m>>, events: Seq<HostEvent>, k: int) -> Seq<
    Continuation<'m>,
>
    decreases k,
{
    if k <= 0 {
        Seq::empty()
    } else {
        let p = pending_calls(stores, events, k - 1);
        match events[k - 1] {
            HostEvent::Call => p.push(stores[k].threads@.last()),
            HostEvent::Answer => p.drop_last(),
            HostEvent::Other => p,
        }
    }
}

proof fn lemma_pending_prefix<'m>(stores: Seq<Store<'m>>, events: Seq<HostEvent>, k: int)
    requires
        stores.len() == events.len() + 1,
        stores[0].threads@.len() == 0,
        forall|i: int|
            0 <= i < events.len() ==> host_event(stores[i], stores[i + 1], #[trigger] events[i]),
        0 <= k < stores.len(),
    ensures
        stores[k].threads@ == pending_calls(stores, events, k),
    decreases k,
{
    if k > 0 {
        lemma_pending_prefix(stores, events, k - 1);
        let e = events[k - 1];
        assert(host_event(stores[k - 1], stores[k], e));
        if e is Call {
            assert(stores[k].threads@ =~= stores[k - 1].threads@.push(stores[k].threads@.last()));
        }
    } else {
        assert(stores[0].threads@ =~= Seq::<Continuation<'m>>::empty());
    }
}

/// A host call waits in a store exactly when one was made and not answered: from a store with
/// none (as `Store::new` gives), the continuations in the store after each event are the calls
/// made and not answered yet, the latest last, which `last_call` and `Call` read.
pub proof fn lemma_pending_host_calls<'m>(stores: Seq<Store<'m>>, events: Seq<HostEvent>)
    requires
        stores.len() == events.len() + 1,
        stores[0].threads@.len() == 0,
        forall|i: int|
            0 <= i < events.len() ==> host_event(stores[i], stores[i + 1], #[trigger] events[i]),
    ensures
        forall|k: int|
            0 <= k < stores.len() ==> (#[trigger] stores[k]).threads@ == pending_calls(
                stores,
                events,
                k,
            ),
{
    assert forall|k: int| 0 <= k < stores.len() implies (#[trigger] stores[k]).threads@
        == pending_calls(stores, events, k) by {
        lemma_pending_prefix(stores, events, k);
    }
}

/// What a step of a thread leads to.
pub enum ThreadResult<'m> {
    Continue(Thread<'m>),
    Done(Vec<Val>),
    Host,
}

impl<'m> Store<'m> {
    /// An empty store with the given identifier.
    pub fn new(id: usize) -> (r: Store<'m>)
        ensures
            r.id == id,
            r.insts@.len() == 0,
            r.funcs@.len() == 0,
            r.func_default is None,
            r.threads@.len() == 0,
    {
        Store { id, insts: Vec::new(), funcs: Vec::new(), func_default: None, threads: Vec::new() }
    }

    /// Returns the identifier of this store.
    pub fn id(&self) -> (r: StoreId)
        ensures
            r == StoreId(self.id),
    {
        StoreId(self.id)
    }

    /// The index of an instance of this store.
    pub fn inst_id(&self, inst: InstId) -> (r: Result<usize, Error>)
        ensures
            match r {
                Ok(x) => inst.store_id == self.id && x == inst.inst_id,
                Err(e) => inst.store_id != self.id && e == Error::Invalid,
            },
    {
        check(self.id == inst.store_id)?;
        Ok(inst.inst_id)
    }

    /// The number of host functions linked by name (those after are fake ones).
    pub open spec fn linked_len(&self) -> int {
        match self.func_default {
            Some((_, x)) => x as int,
            None => self.funcs@.len() as int,
        }
    }

    /// The instance of the thread waiting for the host, if any.
    pub open spec fn caller(&self) -> Option<int> {
        if self.threads@.len() > 0 && self.threads@.last().thread.frames@.len() > 0 {
            Some(self.threads@.last().thread.frames@.last().inst_id as int)
        } else {
            None
        }
    }

    /// The instance and index of global `x` of instance `inst_id`, if they are in the store.
    pub open spec fn spec_global_loc(&self, inst_id: int, x: int) -> Option<(int, int)> {
        if 0 <= inst_id < self.insts@.len() {
            match self.insts@[inst_id].globals.spec_ptr(inst_id, x) {
                Some(p) => match p.spec_instance() {
                    Side::Wasm(i) => if i < self.insts@.len() && p.spec_index()
                        < self.insts@[i as int].globals.int@.len() {
                        Some((i as int, p.spec_index() as int))
                    } else {
                        None
                    },
                    Side::Host => None,
                },
                None => None,
            }
        } else {
            None
        }
    }

    /// The instance and index of table `x` of instance `inst_id`, if they are in the store.
    pub open spec fn spec_table_loc(&self, inst_id: int, x: int) -> Option<(int, int)> {
        if 0 <= inst_id < self.insts@.len() {
            match self.insts@[inst_id].tables.spec_ptr(inst_id, x) {
                Some(p) => match p.spec_instance() {
                    Side::Wasm(i) => if i < self.insts@.len() && p.spec_index()
                        < self.insts@[i as int].tables.int@.len() {
                        Some((i as int, p.spec_index() as int))
                    } else {
                        None
                    },
                    Side::Host => None,
                },
                None => None,
            }
        } else {
            None
        }
    }

    /// The instance holding the memory of instance `inst_id`, if it is one of the store.
    pub open spec fn spec_mem_inst(&self, inst_id: int) -> Option<int> {
        if 0 <= inst_id < self.insts@.len() {
            let c = self.insts@[inst_id].mems;
            let p = if 0 < c.ext@.len() {
                Some(c.ext@[0])
            } else if inst_id < INST_MASK {
                Some(Ptr::spec_new(Side::Wasm(inst_id as usize), 0))
            } else {
                None
            };
            match p {
                Some(p) => match p.spec_instance() {
                    Side::Wasm(i) => if i < self.insts@.len() && p.spec_index() == 0 {
                        Some(i as int)
                    } else {
                        None
                    },
                    Side::Host => None,
                },
                None => None,
            }
        } else {
            None
        }
    }

    /// The index of the first instance named `name`.
    pub fn resolve_inst(&self, name: &str) -> (r: Result<usize, Error>)
        ensures
            match r {
                Ok(x) => x < self.insts@.len() && self.insts@[x as int].name.spec_bytes()
                    == name.spec_bytes() && forall|y: int|
                    0 <= y < x ==> (#[trigger] self.insts@[y]).name.spec_bytes()
                        != name.spec_bytes(),
                Err(e) => e == Error::NotFound && forall|y: int|
                    0 <= y < self.insts@.len() ==> (#[trigger] self.insts@[y]).name.spec_bytes()
                        != name.spec_bytes(),
            },
    {
        let mut i: usize = 0;
        while i < self.insts.len()
            invariant
                i <= self.insts@.len(),
                forall|y: int|
                    0 <= y < i ==> (#[trigger] self.insts@[y]).name.spec_bytes()
                        != name.spec_bytes(),
            decreases self.insts@.len() - i,
        {
            if crate::valid::bytes_eq(self.insts[i].name.as_bytes(), name.as_bytes()) {
                return Ok(i);
            }
            i = i + 1;
        }
        Err(crate::error::not_found())
    }

    /// Sets the name of an instance.
    pub fn set_name(&mut self, inst: InstId, name: &'m str) -> (r: Result<(), Error>)
        ensures
            final(self).id == old(self).id,
            final(self).insts@.len() == old(self).insts@.len(),
            match r {
                Ok(()) => inst.store_id == old(self).id && inst.inst_id < old(self).insts@.len()
                    && final(self).insts@[inst.inst_id as int].name == name,
                Err(e) => e == Error::Invalid,
            },
    {
        let x = self.inst_id(inst)?;
        check(x < self.insts.len())?;
        self.insts[x].name = name;
        Ok(())
    }

    /// Links a host function of the given type. Host functions must be linked in order, before
    /// any instance.
    pub fn link_func_custom(&mut self, module: &'m str, name: &'m str, type_: FuncType) -> (r:
        Result<(), Error>)
        ensures
            linked_custom(*old(self), *final(self), module, name, type_, r),
    {
        let host = HostName { module, name };
        check(self.func_default.is_none())?;
        check(self.insts.len() == 0)?;
        if self.funcs.len() > 0 {
            check(self.funcs[self.funcs.len() - 1].0.lt(&host))?;
        }
        self.funcs.push((host, type_));
        Ok(())
    }

    /// Whether a host function named `module` and `name` can be linked: no default is set, no
    /// module is instantiated yet, and the name sorts after the last linked one.
    pub open spec fn can_link(&self, module: &'m str, name: &'m str) -> bool {
        &&& self.func_default is None
        &&& self.insts@.len() == 0
        &&& self.funcs@.len() > 0 ==> self.funcs@.last().0.spec_lt(HostName { module, name })
    }

    /// Links a host function whose parameters and results are `i32` values.
    pub fn link_func(&mut self, module: &'m str, name: &'m str, params: usize, results: usize) -> (r:
        Result<(), Error>)
        ensures
            linked_i32(*old(self), *final(self), module, name, params, results, r),
    {
        check(params <= 8 && results <= 8)?;
        let type_ = FuncType { params: i32s(params), results: i32s(results) };
        let r = self.link_func_custom(module, name, type_);
        proof {
            if r is Ok {
                assert(self.funcs@.drop_last() =~= old(self).funcs@);
            }
        }
        r
    }

    /// Links the unresolved imported functions of `module` to fake host functions.
    pub fn link_func_default(&mut self, module: &'m str) -> (r: Result<(), Error>)
        ensures
            final(self).funcs@ == old(self).funcs@,
            final(self).insts@.len() == old(self).insts@.len(),
            final(self).id == old(self).id,
            match r {
                Ok(()) => old(self).func_default is None && final(self).func_default == Some(
                    (module, old(self).funcs@.len() as usize),
                ),
                Err(e) => old(self).func_default is Some && e == Error::Invalid,
            },
            r is Err ==> *final(self) == *old(self),
            r is Ok ==> final(self).insts == old(self).insts && final(self).threads == old(self).threads
                && final(self).funcs == old(self).funcs,
    {
        check(self.func_default.is_none())?;
        self.func_default = Some((module, self.funcs.len()));
        Ok(())
    }
}

/// A result type of `n` values of type `i32`.
pub fn i32s(n: usize) -> (r: crate::syntax::ResultType)
    ensures
        r@ == Seq::new(n as nat, |i: int| ValType::I32),
{
    let mut v = Vec::new();
    let mut i: usize = 0;
    while i < n
        invariant
            i <= n,
            v@ == Seq::new(i as nat, |j: int| ValType::I32),
        decreases n - i,
    {
        v.push(ValType::I32);
        i = i + 1;
        proof {
            assert(v@ =~= Seq::new(i as nat, |j: int| ValType::I32));
        }
    }
    crate::syntax::ResultType(v)
}

/// The largest number of frames of a thread.
pub const MAX_FRAMES: usize = 1000;

impl<'m> Store<'m> {
    /// The pointer to function `x` of instance `inst_id`.
    pub fn func_ptr(&self, inst_id: usize, x: u32) -> (r: Result<Ptr, Error>)
        ensures
            r is Ok ==> inst_id < self.insts@.len(),
            inst_id < self.insts@.len() ==> match self.insts@[inst_id as int].funcs.spec_ptr(
                inst_id as int,
                x as int,
            ) {
                Some(p) => r == Ok::<Ptr, Error>(p),
                None => r is Err,
            },
    {
        check(inst_id < self.insts.len())?;
        self.insts[inst_id].funcs.ptr(inst_id, x)
    }

    /// The instance and index of table `x` of instance `inst_id`.
    pub fn table_loc(&self, inst_id: usize, x: u32) -> (r: Result<(usize, usize), Error>)
        ensures
            r matches Ok((i, k)) ==> i < self.insts@.len() && k < self.insts@[i as int].tables.int@.len(),
            match self.spec_table_loc(inst_id as int, x as int) {
                Some((i, k)) => r == Ok::<(usize, usize), Error>((i as usize, k as usize)),
                None => r is Err,
            },
    {
        check(inst_id < self.insts.len())?;
        let ptr = self.insts[inst_id].tables.ptr(inst_id, x)?;
        match ptr.instance() {
            Side::Wasm(i) => {
                let k = ptr.index() as usize;
                check(i < self.insts.len() && k < self.insts[i].tables.int.len())?;
                Ok((i, k))
            },
            Side::Host => Err(invalid()),
        }
    }

    /// The instance of memory `x` (which must be the first) of instance `inst_id`.
    pub fn mem_loc(&self, inst_id: usize, x: u32) -> (r: Result<usize, Error>)
        ensures
            r matches Ok(i) ==> i < self.insts@.len(),
            x == 0 ==> match self.spec_mem_inst(inst_id as int) {
                Some(i) => r == Ok::<usize, Error>(i as usize),
                None => r is Err,
            },
            r is Err ==> r == Err::<usize, Error>(Error::Invalid),
    {
        check(inst_id < self.insts.len())?;
        let ptr = self.insts[inst_id].mems.ptr(inst_id, x)?;
        match ptr.instance() {
            Side::Wasm(i) => {
                check(i < self.insts.len() && ptr.index() == 0)?;
                Ok(i)
            },
            Side::Host => Err(invalid()),
        }
    }

    /// The instance and index of global `x` of instance `inst_id`.
    pub fn global_loc(&self, inst_id: usize, x: u32) -> (r: Result<(usize, usize), Error>)
        ensures
            r matches Ok((i, k)) ==> i < self.insts@.len() && k < self.insts@[i as int].globals.int@.len(),
            match self.spec_global_loc(inst_id as int, x as int) {
                Some((i, k)) => r == Ok::<(usize, usize), Error>((i as usize, k as usize)),
                None => r is Err,
            },
    {
        check(inst_id < self.insts.len())?;
        let ptr = self.insts[inst_id].globals.ptr(inst_id, x)?;
        match ptr.instance() {
            Side::Wasm(i) => {
                let k = ptr.index() as usize;
                check(i < self.insts.len() && k < self.insts[i].globals.int.len())?;
                Ok((i, k))
            },
            Side::Host => Err(invalid()),
        }
    }

    /// The type of the function at `ptr`.
    pub fn func_type(&self, ptr: Ptr) -> (r: Result<FuncType, Error>)
        ensures
            ptr.spec_instance() is Host ==> (r is Ok <==> ptr.spec_index() < self.funcs@.len()),
            ptr.spec_instance() matches Side::Wasm(i) ==> match wasm_func_type(*self, ptr) {
                Some(t) => r matches Ok(ft) && ft@ == t,
                None => r is Err,
            },
            ptr.spec_instance() is Host && r is Ok ==> ptr.spec_index() < self.funcs@.len()
                && r->Ok_0@ == self.funcs@[ptr.spec_index() as int].1@,
    {
        match ptr.instance() {
            Side::Host => {
                let x = ptr.index() as usize;
                check(x < self.funcs.len())?;
                Ok(self.funcs[x].1.copy())
            },
            Side::Wasm(i) => {
                check(i < self.insts.len())?;
                self.insts[i].module.func_type(ptr.index())
            },
        }
    }
}

/// The value of the constant expression at the start of `s` in instance `inst` of the store `st`,
/// and its length in bytes.
pub open spec fn const_value<'m>(st: Store<'m>, inst: int, s: Seq<u8>) -> Option<(Val, nat)> {
    spec_const_expr(st, inst, s, Seq::empty())
}

/// The reference to function `x` of instance `inst` of the store `st`, if there is one.
pub open spec fn func_ref<'m>(st: Store<'m>, inst: int, x: u32) -> Option<Ptr> {
    if 0 <= inst < st.insts@.len() {
        st.insts@[inst].funcs.spec_ptr(inst, x as int)
    } else {
        None
    }
}

/// The `i32` offset given by the constant expression at the start of `s` in instance `inst` of the
/// store `st`, and its length in bytes.
pub open spec fn const_offset<'m>(st: Store<'m>, inst: int, s: Seq<u8>) -> Option<(u32, nat)> {
    match spec_const_expr(st, inst, s, Seq::empty()) {
        Some((Val::I32(o), n)) => Some((o, n)),
        _ => None,
    }
}

/// Whether two stores agree on what constant expressions read: their instances, and the
/// functions and globals of each.
pub open spec fn same_constants<'m>(a: Store<'m>, b: Store<'m>) -> bool {
    &&& a.insts@.len() == b.insts@.len()
    &&& forall|i: int|
        0 <= i < a.insts@.len() ==> (#[trigger] a.insts@[i]).funcs == b.insts@[i].funcs
            && a.insts@[i].globals == b.insts@[i].globals
}

/// A constant expression gives the same value in stores that agree on what it reads.
pub proof fn lemma_const_expr_frame<'m>(a: Store<'m>, b: Store<'m>, inst: int, s: Seq<u8>, vs: Seq<Val>)
    requires
        same_constants(a, b),
    ensures
        spec_const_expr(a, inst, s, vs) == spec_const_expr(b, inst, s, vs),
    decreases s.len(),
{
    if let Ok((InstrView::Plain(i), n)) = spec_instr(s) {
        if 1 <= n <= s.len() {
            if 0 <= inst < a.insts@.len() {
                assert(a.insts@[inst].funcs == b.insts@[inst].funcs);
                assert(a.insts@[inst].globals == b.insts@[inst].globals);
                if let Some((g, k)) = a.spec_global_loc(inst, 0) {
                    assert(a.insts@[g].globals == b.insts@[g].globals);
                }
                if let Instr::GlobalGet(x) = i {
                    if let Some((g, k)) = a.spec_global_loc(inst, x as int) {
                        assert(a.insts@[g].globals == b.insts@[g].globals);
                    }
                }
            }
            let next = match i {
                Instr::I32Const(c) => Some(Val::I32(c)),
                Instr::I64Const(c) => Some(Val::I64(c)),
                Instr::F32Const(c) => Some(Val::F32(c)),
                Instr::F64Const(c) => Some(Val::F64(c)),
                Instr::RefNull(t) => Some(Val::Null(t)),
                Instr::RefFunc(x) => if 0 <= inst < a.insts@.len() {
                    match a.insts@[inst].funcs.spec_ptr(inst, x as int) {
                        Some(p) => Some(Val::Ref(p)),
                        None => None,
                    }
                } else {
                    None
                },
                Instr::GlobalGet(x) => match a.spec_global_loc(inst, x as int) {
                    Some((g, k)) => Some(a.insts@[g].globals.int@[k].value),
                    None => None,
                },
                _ => None,
            };
            if let Some(v) = next {
                lemma_const_expr_frame(a, b, inst, s.skip(n as int), vs.push(v));
            }
        }
    }
}

/// The data segment at the start of `s`, in instance `inst` of `st`: for an active one, its memory
/// and the offset that its expression gives; its bytes; and the number of bytes it takes.
pub open spec fn spec_data_segment<'m>(st: Store<'m>, inst: int, s: Seq<u8>) -> Option<
    (Option<(u32, u32)>, Seq<u8>, nat),
> {
    match crate::parser::spec_data_mode(s) {
        Some((m, a)) => {
            let rest = s.skip(a as int);
            let off = match m {
                crate::parser::DataMode::Passive => Some((None::<(u32, u32)>, 0nat)),
                crate::parser::DataMode::Active { memory } => match const_offset(st, inst, rest) {
                    Some((o, n)) => Some((Some((memory, o)), n)),
                    None => None,
                },
            };
            match off {
                Some((act, n)) => if n <= rest.len() {
                    match crate::parser::spec_data_bytes(rest.skip(n as int)) {
                        Some((b, k)) => Some((act, b, a + n + k)),
                        None => None,
                    }
                } else {
                    None
                },
                None => None,
            }
        },
        None => None,
    }
}

/// The `k` data segments at the start of `s`, in instance `inst` of `st`.
pub open spec fn spec_data_segments<'m>(st: Store<'m>, inst: int, s: Seq<u8>, k: nat) -> Option<
    Seq<(Option<(u32, u32)>, Seq<u8>)>,
>
    decreases k,
{
    if k == 0 {
        Some(Seq::empty())
    } else {
        match spec_data_segment(st, inst, s) {
            Some((act, b, n)) => if n <= s.len() {
                match spec_data_segments(st, inst, s.skip(n as int), (k - 1) as nat) {
                    Some(w) => Some(seq![(act, b)] + w),
                    None => None,
                }
            } else {
                None
            },
            None => None,
        }
    }
}

/// The data segments of the data section of the sections `s`, in instance `inst` of `st`.
pub open spec fn module_data_segments<'m>(st: Store<'m>, inst: int, s: Seq<u8>) -> Option<
    Seq<(Option<(u32, u32)>, Seq<u8>)>,
> {
    match crate::module::spec_find_section(s, crate::syntax::SectionId::Data) {
        Ok(Some(c)) => match spec_u32(c) {
            Ok((n, k)) => spec_data_segments(st, inst, c.skip(k as int), n as nat),
            Err(_) => None,
        },
        Ok(None) => Some(Seq::empty()),
        Err(_) => None,
    }
}

/// Whether the active data segments `segs` all initialize memory 0.
pub open spec fn data_in_memory_zero(segs: Seq<(Option<(u32, u32)>, Seq<u8>)>) -> bool {
    forall|j: int| 0 <= j < segs.len() ==> ((#[trigger] segs[j]).0 matches Some((m, _)) ==> m == 0)
}

/// The bytes `mem` after writing the bytes of each active data segment of `segs` at its offset,
/// in order.
pub open spec fn write_data_segments(mem: Seq<u8>, segs: Seq<(Option<(u32, u32)>, Seq<u8>)>) -> Seq<u8>
    decreases segs.len(),
{
    if segs.len() == 0 {
        mem
    } else {
        let m = write_data_segments(mem, segs.drop_last());
        match segs.last().0 {
            Some((_, o)) => m.take(o as int) + segs.last().1 + m.skip(o + segs.last().1.len()),
            None => m,
        }
    }
}

/// Whether each active segment of `segs` fits in `len` bytes at its offset.
pub open spec fn data_segments_fit(segs: Seq<(Option<(u32, u32)>, Seq<u8>)>, len: int) -> bool {
    forall|i: int|
        0 <= i < segs.len() ==> ((#[trigger] segs[i]).0 matches Some((_, o)) ==> o + segs[i].1.len()
            <= len)
}

/// Writing data segments that fit keeps the length of memory, leaves the bytes that no active
/// segment covers as they were, and leaves the bytes of the last segment at its offset.
pub proof fn lemma_write_data_segments(mem: Seq<u8>, segs: Seq<(Option<(u32, u32)>, Seq<u8>)>, j: int)
    requires
        data_segments_fit(segs, mem.len() as int),
    ensures
        write_data_segments(mem, segs).len() == mem.len(),
        0 <= j < mem.len() && (forall|i: int|
            0 <= i < segs.len() ==> ((#[trigger] segs[i]).0 matches Some((_, o)) ==> !(o <= j < o
                + segs[i].1.len()))) ==> write_data_segments(mem, segs)[j] == mem[j],
        segs.len() > 0 && segs.last().0 is Some ==> write_data_segments(mem, segs).subrange(
            segs.last().0->Some_0.1 as int,
            segs.last().0->Some_0.1 + segs.last().1.len(),
        ) == segs.last().1,
    decreases segs.len(),
{
    if segs.len() > 0 {
        let rest = segs.drop_last();
        assert(data_segments_fit(rest, mem.len() as int)) by {
            assert forall|i: int| 0 <= i < rest.len() implies ((#[trigger] rest[i]).0 matches Some((_, o))
                ==> o + rest[i].1.len() <= mem.len()) by {
                assert(rest[i] == segs[i]);
            }
        }
        lemma_write_data_segments(mem, rest, j);
        let m = write_data_segments(mem, rest);
        if let Some((_, o)) = segs.last().0 {
            let b = segs.last().1;
            assert(segs[segs.len() - 1] == segs.last());
            let w = m.take(o as int) + b + m.skip(o + b.len());
            assert(w.subrange(o as int, o + b.len()) =~= b);
            if 0 <= j < mem.len() && (forall|i: int|
                0 <= i < segs.len() ==> ((#[trigger] segs[i]).0 matches Some((_, o)) ==> !(o <= j < o
                    + segs[i].1.len()))) {
                assert(forall|i: int|
                    0 <= i < rest.len() ==> ((#[trigger] rest[i]).0 matches Some((_, o)) ==> !(o <= j
                        < o + rest[i].1.len()))) by {
                    assert forall|i: int| 0 <= i < rest.len() implies ((#[trigger] rest[i]).0 matches Some((_, o))
                        ==> !(o <= j < o + rest[i].1.len())) by {
                        assert(rest[i] == segs[i]);
                    }
                }
                assert(!(o <= j < o + b.len()));
            }
        }
    }
}

/// The memory of an instance whose data segments fit in it, written on zeros: the bytes of the
/// last active segment are at its offset, and the bytes that no active segment covers are zero.
pub proof fn lemma_initial_memory(len: nat, segs: Seq<(Option<(u32, u32)>, Seq<u8>)>, j: int)
    requires
        data_segments_fit(segs, len as int),
    ensures
        write_data_segments(Seq::new(len, |i: int| 0u8), segs).len() == len,
        0 <= j < len && (forall|i: int|
            0 <= i < segs.len() ==> ((#[trigger] segs[i]).0 matches Some((_, o)) ==> !(o <= j < o
                + segs[i].1.len()))) ==> write_data_segments(Seq::new(len, |i: int| 0u8), segs)[j] == 0,
        segs.len() > 0 && segs.last().0 is Some ==> write_data_segments(
            Seq::new(len, |i: int| 0u8),
            segs,
        ).subrange(
            segs.last().0->Some_0.1 as int,
            segs.last().0->Some_0.1 + segs.last().1.len(),
        ) == segs.last().1,
{
    lemma_write_data_segments(Seq::new(len, |i: int| 0u8), segs, j);
}

proof fn lemma_data_segments_frame<'m>(a: Store<'m>, b: Store<'m>, inst: int, s: Seq<u8>, k: nat)
    requires
        same_constants(a, b),
    ensures
        spec_data_segments(a, inst, s, k) == spec_data_segments(b, inst, s, k),
    decreases k,
{
    if k > 0 {
        if let Some((m, x)) = crate::parser::spec_data_mode(s) {
            lemma_const_expr_frame(a, b, inst, s.skip(x as int), Seq::empty());
        }
        if let Some((act, bytes, n)) = spec_data_segment(a, inst, s) {
            if n <= s.len() {
                lemma_data_segments_frame(a, b, inst, s.skip(n as int), (k - 1) as nat);
            }
        }
    }
}

/// Whether `b` is `a` where only the bytes of memories and the dropped data segments may differ,
/// memories keeping their sizes and lengths.
pub open spec fn data_frame<'m>(a: Store<'m>, b: Store<'m>) -> bool {
    &&& b.id == a.id
    &&& b.threads == a.threads
    &&& b.func_default == a.func_default
    &&& b.funcs == a.funcs
    &&& b.insts@.len() == a.insts@.len()
    &&& forall|i: int|
        0 <= i < a.insts@.len() ==> {
            &&& (#[trigger] b.insts@[i]).name == a.insts@[i].name
            &&& b.insts@[i].module == a.insts@[i].module
            &&& b.insts@[i].funcs == a.insts@[i].funcs
            &&& b.insts@[i].tables == a.insts@[i].tables
            &&& b.insts@[i].globals == a.insts@[i].globals
            &&& b.insts@[i].elems == a.insts@[i].elems
            &&& b.insts@[i].mems.ext == a.insts@[i].mems.ext
            &&& b.insts@[i].mems.int.size == a.insts@[i].mems.int.size
            &&& b.insts@[i].mems.int.max == a.insts@[i].mems.int.max
            &&& b.insts@[i].mems.int.data@.len() == a.insts@[i].mems.int.data@.len()
        }
}

/// The mode of an element segment being computed.
#[derive(Debug, Copy, Clone)]
pub enum ComputedElemMode {
    Passive,
    Active { table: u32, offset: usize },
    Declarative,
}

/// Computes the elements of an element segment.
pub struct ComputeElem<'a, 'm> {
    pub store: &'a Store<'m>,
    pub inst_id: usize,
    pub mode: ComputedElemMode,
    pub init: Vec<Val>,
    /// The parts received so far.
    pub parts: Ghost<Seq<crate::parser::ElemPart>>,
}

impl<'a, 'm> crate::parser::ParseElem<'m> for ComputeElem<'a, 'm> {
    open spec fn inv(&self) -> bool {
        true
    }

    open spec fn kept(&self) -> Seq<u32> {
        Seq::empty()
    }

    open spec fn parts(&self) -> Seq<crate::parser::ElemPart> {
        self.parts@
    }

    fn mode(&mut self, mode: crate::parser::ElemMode, parser: &mut crate::parser::Parser<'m>) -> (r:
        Result<(), Error>)
        ensures
            final(self).store == old(self).store,
            final(self).inst_id == old(self).inst_id,
            final(self).init == old(self).init,
            match mode {
                crate::parser::ElemMode::Passive => r is Ok && final(self).mode == ComputedElemMode::Passive
                    && *final(parser) == *old(parser),
                crate::parser::ElemMode::Declarative => r is Ok && final(self).mode
                    == ComputedElemMode::Declarative && *final(parser) == *old(parser),
                crate::parser::ElemMode::Active { table } => match const_offset(
                    *old(self).store,
                    old(self).inst_id as int,
                    old(parser).rest(),
                ) {
                    Some((o, n)) => r is Ok && final(self).mode == (ComputedElemMode::Active {
                        table,
                        offset: o as usize,
                    }) && final(parser).pos() == old(parser).pos() + n,
                    None => r is Err,
                },
            },
    {
        self.parts = Ghost(self.parts@.push(crate::parser::ElemPart::Mode(mode)));
        self.mode = match mode {
            crate::parser::ElemMode::Passive => ComputedElemMode::Passive,
            crate::parser::ElemMode::Active { table } => {
                let offset = Thread::const_expr(self.store, self.inst_id, parser)?.unwrap_i32()?;
                ComputedElemMode::Active { table, offset: offset as usize }
            },
            crate::parser::ElemMode::Declarative => ComputedElemMode::Declarative,
        };
        Ok(())
    }

    fn type_(&mut self, _type: RefType) -> (r: Result<(), Error>)
        ensures
            r is Ok,
            final(self).store == old(self).store,
            final(self).inst_id == old(self).inst_id,
            final(self).mode == old(self).mode,
            final(self).init == old(self).init,
    {
        self.parts = Ghost(self.parts@.push(crate::parser::ElemPart::Type(_type)));
        Ok(())
    }

    fn init_funcidx(&mut self, x: u32) -> (r: Result<(), Error>)
        ensures
            final(self).store == old(self).store,
            final(self).inst_id == old(self).inst_id,
            final(self).mode == old(self).mode,
            match func_ref(*old(self).store, old(self).inst_id as int, x) {
                Some(p) => r is Ok && final(self).init@ == old(self).init@.push(Val::Ref(p)),
                None => r is Err,
            },
    {
        self.parts = Ghost(self.parts@.push(crate::parser::ElemPart::FuncIdx(x)));
        let ptr = self.store.func_ptr(self.inst_id, x)?;
        self.init.push(Val::Ref(ptr));
        Ok(())
    }

    fn init_expr(&mut self, parser: &mut crate::parser::Parser<'m>) -> (r: Result<(), Error>)
        ensures
            final(self).store == old(self).store,
            final(self).inst_id == old(self).inst_id,
            final(self).mode == old(self).mode,
            match const_value(*old(self).store, old(self).inst_id as int, old(parser).rest()) {
                Some((v, n)) => r is Ok && final(self).init@ == old(self).init@.push(v) && final(parser).pos()
                    == old(parser).pos() + n,
                None => r is Err,
            },
    {
        self.parts = Ghost(self.parts@.push(crate::parser::ElemPart::Expr));
        let v = Thread::const_expr(self.store, self.inst_id, parser)?;
        self.init.push(v);
        Ok(())
    }
}

/// The mode of a data segment being computed.
#[derive(Debug, Copy, Clone)]
pub enum ComputedDataMode {
    Passive,
    Active { memory: u32, offset: usize },
}

/// Computes the bytes of a data segment.
pub struct ComputeData<'a, 'm> {
    pub store: &'a Store<'m>,
    pub inst_id: usize,
    pub mode: ComputedDataMode,
    pub init: Option<&'m [u8]>,
    /// The parts received so far.
    pub parts: Ghost<Seq<crate::parser::DataPart>>,
}

/// Whether `cm` is the mode computed for the data segment mode `m` in instance `inst` of `st`,
/// the offset expression read from `rest` taking `n` bytes.
pub open spec fn computed_data_mode<'m>(
    st: Store<'m>,
    inst: int,
    m: crate::parser::DataMode,
    rest: Seq<u8>,
    n: nat,
    cm: ComputedDataMode,
) -> bool {
    match m {
        crate::parser::DataMode::Passive => cm == ComputedDataMode::Passive && n == 0,
        crate::parser::DataMode::Active { memory } => match const_offset(st, inst, rest) {
            Some((o, k)) => k == n && cm == (ComputedDataMode::Active { memory, offset: o as usize }),
            None => false,
        },
    }
}

impl<'a, 'm> crate::parser::ParseData<'m> for ComputeData<'a, 'm> {
    open spec fn inv(&self) -> bool {
        let ps = self.parts@;
        &&& ps.len() >= 1 ==> (ps.last() matches crate::parser::DataPart::Mode(m, rest, n)
            ==> computed_data_mode(*self.store, self.inst_id as int, m, rest, n, self.mode))
        &&& ps.len() >= 2 ==> (ps.last() matches crate::parser::DataPart::Init(b) ==> (
        ps[ps.len() - 2] matches crate::parser::DataPart::Mode(m, rest, n) ==> {
            &&& self.init matches Some(x)
            &&& x@ == b
            &&& computed_data_mode(*self.store, self.inst_id as int, m, rest, n, self.mode)
        }))
    }

    type Kept = (&'a Store<'m>, usize);

    open spec fn kept(&self) -> (&'a Store<'m>, usize) {
        (self.store, self.inst_id)
    }

    open spec fn keeps_parts() -> bool {
        true
    }

    open spec fn parts(&self) -> Seq<crate::parser::DataPart> {
        self.parts@
    }

    fn mode(&mut self, mode: crate::parser::DataMode, parser: &mut crate::parser::Parser<'m>) -> (r:
        Result<(), Error>)
        ensures
            final(self).store == old(self).store,
            final(self).inst_id == old(self).inst_id,
            final(self).init == old(self).init,
            match mode {
                crate::parser::DataMode::Passive => r is Ok && final(self).mode == ComputedDataMode::Passive
                    && *final(parser) == *old(parser),
                crate::parser::DataMode::Active { memory } => match const_offset(
                    *old(self).store,
                    old(self).inst_id as int,
                    old(parser).rest(),
                ) {
                    Some((o, n)) => r is Ok && final(self).mode == (ComputedDataMode::Active {
                        memory,
                        offset: o as usize,
                    }) && final(parser).pos() == old(parser).pos() + n,
                    None => r is Err,
                },
            },
    {
        let ghost rest = parser.rest();
        let ghost p0 = *parser;
        self.mode = match mode {
            crate::parser::DataMode::Passive => ComputedDataMode::Passive,
            crate::parser::DataMode::Active { memory } => {
                let offset = Thread::const_expr(self.store, self.inst_id, parser)?.unwrap_i32()?;
                ComputedDataMode::Active { memory, offset: offset as usize }
            },
        };
        self.parts = Ghost(
            self.parts@.push(
                crate::parser::DataPart::Mode(mode, rest, (parser.pos() - p0.pos()) as nat),
            ),
        );
        Ok(())
    }

    fn init(&mut self, init: &'m [u8]) -> (r: Result<(), Error>)
        ensures
            r is Ok,
            final(self).init == Some(init),
            final(self).store == old(self).store,
            final(self).inst_id == old(self).inst_id,
            final(self).mode == old(self).mode,
    {
        self.init = Some(init);
        self.parts = Ghost(self.parts@.push(crate::parser::DataPart::Init(init@)));
        Ok(())
    }
}

/// The default values of the locals declared by the `k` groups (a count and a type each) at the
/// start of `s`, and the number of bytes of the groups.
pub open spec fn spec_local_groups(s: Seq<u8>, k: nat) -> Option<(Seq<Val>, nat)>
    decreases k,
{
    if k == 0 {
        Some((Seq::empty(), 0))
    } else {
        match spec_u32(s) {
            Ok((len, n0)) => match spec_byte_enum::<ValType>(s.skip(n0 as int)) {
                Ok((t, n1)) => match spec_default(t) {
                    Some(v) => match spec_local_groups(s.skip((n0 + n1) as int), (k - 1) as nat) {
                        Some((vs, m)) => Some((Seq::new(len as nat, |i: int| v) + vs, n0 + n1 + m)),
                        None => None,
                    },
                    None => None,
                },
                Err(_) => None,
            },
            Err(_) => None,
        }
    }
}

/// The default values of the locals declared at the start of the function body `s`, and the
/// number of bytes of their declaration.
pub open spec fn spec_locals(s: Seq<u8>) -> Option<(Seq<Val>, nat)> {
    match spec_u32(s) {
        Ok((k, n)) => match spec_local_groups(s.skip(n as int), k as nat) {
            Some((vs, m)) => Some((vs, n + m)),
            None => None,
        },
        Err(_) => None,
    }
}

/// Appends the locals declared at the start of a function body, with their default values.
pub fn append_locals(parser: &mut crate::parser::Parser, locals: &mut Vec<Val>) -> (r: Result<(), Error>)
    requires
        old(parser).wf(),
    ensures
        crate::parser::same_input(*old(parser), *final(parser)),
        final(locals)@.len() >= old(locals)@.len(),
        final(locals)@.take(old(locals)@.len() as int) == old(locals)@,
        match spec_locals(old(parser).rest()) {
            Some((vs, n)) => r is Ok && final(locals)@ == old(locals)@ + vs && final(parser).pos()
                == old(parser).pos() + n,
            None => r is Err,
        },
{
    let ghost s = old(parser).rest();
    proof {
        old(parser).lemma_wf();
    }
    let n = parser.parse_vec()?;
    let ghost p1 = *parser;
    proof {
        parser.lemma_wf();
        assert(parser.rest() =~= s.skip(parser.pos() - old(parser).pos()));
    }
    let mut i: usize = 0;
    while i < n
        invariant
            parser.wf(),
            old(parser).wf(),
            crate::parser::same_input(*old(parser), *parser),
            s == old(parser).rest(),
            (spec_u32(s) matches Ok((k, n0)) && k == n && p1.pos() == old(parser).pos() + n0),
            parser.pos() >= p1.pos(),
            parser.rest() == s.skip(parser.pos() - old(parser).pos()),
            i <= n,
            locals@.len() >= old(locals)@.len(),
            locals@.take(old(locals)@.len() as int) == old(locals)@,
            spec_local_groups(p1.rest(), n as nat) == match spec_local_groups(parser.rest(), (n - i) as nat) {
                Some((vs, m)) => Some((locals@.skip(old(locals)@.len() as int) + vs, (m + (parser.pos() - p1.pos())) as nat)),
                None => None,
            },
            p1.rest() == s.skip(p1.pos() - old(parser).pos()),
        decreases n - i,
    {
        let ghost r0 = parser.rest();
        let ghost q0 = *parser;
        let len = parser.parse_u32()?;
        proof {
            parser.lemma_wf();
            q0.lemma_wf();
            assert(parser.rest() =~= r0.skip(parser.pos() - q0.pos()));
        }
        let ghost r1 = parser.rest();
        let ghost q1 = *parser;
        let t = parser.parse_valtype()?;
        proof {
            parser.lemma_wf();
            q0.lemma_wf();
            q1.lemma_wf();
            old(parser).lemma_wf();
            assert(parser.rest() =~= r1.skip(parser.pos() - q1.pos()));
            assert(parser.rest() =~= r0.skip(parser.pos() - q0.pos()));
            assert(parser.rest() =~= s.skip(parser.pos() - old(parser).pos()));
        }
        let val = default_val(t)?;
        let ghost before = locals@;
        let mut j: u32 = 0;
        while j < len
            invariant
                j <= len,
                before.len() >= old(locals)@.len(),
                before.take(old(locals)@.len() as int) == old(locals)@,
                locals@ == before + Seq::new(j as nat, |k: int| val),
            decreases len - j,
        {
            locals.push(val);
            j = j + 1;
            proof {
                assert(locals@ =~= before + Seq::new(j as nat, |k: int| val));
            }
        }
        proof {
            assert(locals@.take(old(locals)@.len() as int) =~= old(locals)@);
            assert(locals@.skip(old(locals)@.len() as int) =~= before.skip(old(locals)@.len() as int)
                + Seq::new(len as nat, |k: int| val));
            assert(r0.skip((q1.pos() - q0.pos()) as int) =~= r1);
            assert(r0.skip((parser.pos() - q0.pos()) as int) =~= parser.rest());
            let gs = spec_local_groups(r0, (n - i) as nat);
            let gt = spec_local_groups(parser.rest(), (n - i - 1) as nat);
            match gt {
                Some((vs, m)) => {
                    assert(gs == Some((Seq::new(len as nat, |k: int| val) + vs, ((parser.pos() - q0.pos()) + m) as nat)));
                    assert((before.skip(old(locals)@.len() as int) + Seq::new(len as nat, |k: int| val)) + vs
                        =~= before.skip(old(locals)@.len() as int) + (Seq::new(len as nat, |k: int| val) + vs));
                },
                None => {},
            }
        }
        i = i + 1;
    }
    proof {
        assert(locals@ =~= old(locals)@ + locals@.skip(old(locals)@.len() as int));
    }
    Ok(())
}

/// The value of the constant expression at the start of `s` in instance `inst` of the store `st`,
/// with the values `vs` already pushed, and the number of bytes up to and including its `end`:
/// constants, null references, function references and globals are pushed, and the expression
/// must end with exactly one value.
pub open spec fn spec_const_expr<'m>(st: Store<'m>, inst: int, s: Seq<u8>, vs: Seq<Val>) -> Option<(Val, nat)>
    decreases s.len(),
{
    match spec_instr(s) {
        Ok((InstrView::Plain(i), n)) => if 1 <= n <= s.len() {
            let next = match i {
                Instr::I32Const(c) => Some(Val::I32(c)),
                Instr::I64Const(c) => Some(Val::I64(c)),
                Instr::F32Const(c) => Some(Val::F32(c)),
                Instr::F64Const(c) => Some(Val::F64(c)),
                Instr::RefNull(t) => Some(Val::Null(t)),
                Instr::RefFunc(x) => if 0 <= inst < st.insts@.len() {
                    match st.insts@[inst].funcs.spec_ptr(inst, x as int) {
                        Some(p) => Some(Val::Ref(p)),
                        None => None,
                    }
                } else {
                    None
                },
                Instr::GlobalGet(x) => match st.spec_global_loc(inst, x as int) {
                    Some((a, k)) => Some(st.insts@[a].globals.int@[k].value),
                    None => None,
                },
                _ => None,
            };
            if i is End {
                if vs.len() == 1 {
                    Some((vs[0], n))
                } else {
                    None
                }
            } else {
                match next {
                    Some(v) => match spec_const_expr(st, inst, s.skip(n as int), vs.push(v)) {
                        Some((w, m)) => Some((w, n + m)),
                        None => None,
                    },
                    None => None,
                }
            }
        } else {
            None
        },
        _ => None,
    }
}

impl<'m> Thread<'m> {
    /// The parsers of the thread and of its return points are well-formed.
    pub open spec fn wf(&self) -> bool {
        &&& self.parser.wf()
        &&& forall|i: int| 0 <= i < self.frames@.len() ==> (#[trigger] self.frames@[i]).ret.wf()
    }

    /// A thread starting a call.
    pub fn new(parser: crate::parser::Parser<'m>, frame: Frame<'m>) -> (r: Thread<'m>)
        requires
            parser.wf(),
            frame.ret.wf(),
        ensures
            r.wf(),
            r.parser == parser,
            r.frames@ == seq![frame],
            r.values@.len() == 0,
    {
        let mut frames = Vec::new();
        frames.push(frame);
        Thread { parser, frames, values: Vec::new() }
    }

    /// Evaluates a constant expression of instance `inst_id`.
    pub fn const_expr(store: &Store<'m>, inst_id: usize, parser: &mut crate::parser::Parser<'m>) -> (r:
        Result<Val, Error>)
        requires
            old(parser).wf(),
        ensures
            crate::parser::same_input(*old(parser), *final(parser)),
            match spec_const_expr(*store, inst_id as int, old(parser).rest(), Seq::empty()) {
                Some((v, n)) => r == Ok::<Val, Error>(v) && final(parser).pos() == old(parser).pos() + n,
                None => r is Err,
            },
    {
        let mut values: Vec<Val> = Vec::new();
        let ghost s = old(parser).rest();
        proof {
            old(parser).lemma_wf();
            assert(s.skip(0) =~= s);
        }
        loop
            invariant
                parser.wf(),
                crate::parser::same_input(*old(parser), *parser),
                s == old(parser).rest(),
                old(parser).wf(),
                parser.pos() >= old(parser).pos(),
                parser.rest() == s.skip(parser.pos() - old(parser).pos()),
                spec_const_expr(*store, inst_id as int, s, Seq::empty()) == match spec_const_expr(
                    *store,
                    inst_id as int,
                    parser.rest(),
                    values@,
                ) {
                    Some((v, m)) => Some((v, (m + (parser.pos() - old(parser).pos())) as nat)),
                    None => None,
                },
            decreases parser.rest().len(),
        {
            proof {
                parser.lemma_wf();
            }
            let ghost before = *parser;
            let ghost r0 = parser.rest();
            let instr = parser.parse_instr()?;
            proof {
                parser.lemma_wf();
                before.lemma_wf();
                old(parser).lemma_wf();
                assert(parser.rest() =~= r0.skip(parser.pos() - before.pos()));
                assert(parser.rest() =~= s.skip(parser.pos() - old(parser).pos()));
            }
            match instr {
                crate::syntax::Instr::End => {
                    check(values.len() == 1)?;
                    return Ok(values[0]);
                },
                crate::syntax::Instr::I32Const(c) => values.push(Val::I32(c)),
                crate::syntax::Instr::I64Const(c) => values.push(Val::I64(c)),
                crate::syntax::Instr::F32Const(c) => values.push(Val::F32(c)),
                crate::syntax::Instr::F64Const(c) => values.push(Val::F64(c)),
                crate::syntax::Instr::RefNull(t) => values.push(Val::Null(t)),
                crate::syntax::Instr::RefFunc(x) => values.push(Val::Ref(store.func_ptr(inst_id, x)?)),
                crate::syntax::Instr::GlobalGet(x) => {
                    let (i, k) = store.global_loc(inst_id, x)?;
                    values.push(store.insts[i].globals.int[k].value);
                },
                _ => return Err(invalid()),
            }
        }
    }

    /// The instance of the current frame.
    pub fn inst_id(&self) -> (r: Result<usize, Error>)
        ensures
            match r {
                Ok(x) => self.frames@.len() > 0 && x == self.frames@.last().inst_id,
                Err(e) => self.frames@.len() == 0 && e == Error::Invalid,
            },
    {
        check(self.frames.len() > 0)?;
        Ok(self.frames[self.frames.len() - 1].inst_id)
    }

    /// Enters a block.
    pub fn push_label(&mut self) -> (r: Result<(), Error>)
        requires
            old(self).wf(),
        ensures
            final(self).wf(),
            final(self).parser == old(self).parser,
            final(self).values == old(self).values,
            final(self).frames@.len() == old(self).frames@.len(),
            r is Ok <==> old(self).frames@.len() > 0 && old(self).frames@.last().labels_cnt < usize::MAX,
            r is Ok ==> moved(*old(self), *final(self), old(self).frames@.last().stp as int, old(self).frames@.last().labels_cnt + 1),
    {
        check(self.frames.len() > 0)?;
        let k = self.frames.len() - 1;
        check(self.frames[k].labels_cnt < usize::MAX)?;
        let ghost before = self.frames@;
        self.frames[k].labels_cnt = self.frames[k].labels_cnt + 1;
        proof {
            assert forall|i: int| 0 <= i < self.frames@.len() implies (#[trigger] self.frames@[i]).ret
                == before[i].ret by {}
        }
        Ok(())
    }

    /// Skips the branch table entry of the current frame.
    pub fn skip_jump(&mut self) -> (r: Result<(), Error>)
        requires
            old(self).wf(),
        ensures
            final(self).wf(),
            final(self).values == old(self).values,
            final(self).parser == old(self).parser,
            final(self).frames@.len() == old(self).frames@.len(),
            r is Ok <==> old(self).frames@.len() > 0 && old(self).frames@.last().stp < usize::MAX,
            r is Ok ==> moved(*old(self), *final(self), old(self).frames@.last().stp + 1, old(self).frames@.last().labels_cnt as int),
    {
        check(self.frames.len() > 0)?;
        let k = self.frames.len() - 1;
        let ghost before = self.frames@;
        let r = self.frames[k].skip_jump();
        proof {
            assert forall|i: int| 0 <= i < self.frames@.len() implies (#[trigger] self.frames@[i]).ret
                == before[i].ret by {}
        }
        r
    }

    /// Takes the branch of the entry at `offset` in the branch table of the current frame.
    pub fn take_jump(&mut self, store: &Store<'m>, offset: usize) -> (r: Result<(), Error>)
        requires
            old(self).wf(),
        ensures
            final(self).wf(),
            final(self).values == old(self).values,
            final(self).frames@.len() == old(self).frames@.len(),
            r is Ok <==> can_jump(*old(self), *store, offset as int),
            r is Ok ==> (branch_entry(*old(self), *store, offset as int) matches Some(e) && jumped(
                *old(self),
                *final(self),
                e,
                offset as int,
                old(self).frames@.last().labels_cnt as int,
                old(self).parser.pos(),
            )),
    {
        check(self.frames.len() > 0)?;
        let k = self.frames.len() - 1;
        let inst_id = self.frames[k].inst_id;
        check(inst_id < store.insts.len())?;
        check(offset <= usize::MAX - self.frames[k].stp)?;
        let stp = self.frames[k].stp + offset;
        let entry = store.insts[inst_id].module.branch(self.frames[k].func, stp)?.view();
        let d = entry.delta_stp;
        let next = if d >= 0 {
            check(d as usize <= usize::MAX - stp)?;
            stp + d as usize
        } else {
            let back = if d == i32::MIN {
                0x8000_0000usize
            } else {
                (-d) as usize
            };
            check(back <= stp)?;
            stp - back
        };
        let ghost before = self.frames@;
        self.frames[k].stp = next;
        proof {
            assert forall|i: int| 0 <= i < self.frames@.len() implies (#[trigger] self.frames@[i]).ret
                == before[i].ret by {}
            assert(self.parser == old(self).parser);
            assert(branch_entry(*old(self), *store, offset as int) == Some(entry));
        }
        let r = self.parser.jump(entry.delta_ip);
        proof {
            self.parser.lemma_wf();
        }
        r
    }

    /// Leaves the innermost block of the current frame after its end.
    pub fn exit_label(self) -> (r: Result<ThreadResult<'m>, Error>)
        requires
            self.wf(),
        ensures
            r matches Ok(ThreadResult::Continue(t)) ==> t.wf(),
            ended(self, self.parser.pos(), r),
    {
        let mut t = self;
        check(t.frames.len() > 0)?;
        let k = t.frames.len() - 1;
        check(t.frames[k].labels_cnt > 0)?;
        let ghost before = t.frames@;
        t.frames[k].labels_cnt = t.frames[k].labels_cnt - 1;
        proof {
            assert forall|i: int| 0 <= i < t.frames@.len() implies (#[trigger] t.frames@[i]).ret
                == before[i].ret by {}
        }
        if t.frames[k].labels_cnt == 0 {
            let arity = t.frames[k].arity;
            let ghost vs = t.values@;
            let values = t.pop_values(arity)?;
            let frame = t.frames.pop().unwrap();
            if t.frames.len() == 0 {
                return Ok(ThreadResult::Done(values));
            }
            t.parser = frame.ret;
            t.push_values(values.as_slice());
            assert(t.values@ =~= vs);
            assert(t.frames@ =~= self.frames@.drop_last());
        }
        Ok(ThreadResult::Continue(t))
    }

    /// Returns from the current frame.
    pub fn exit_frame(self) -> (r: Result<ThreadResult<'m>, Error>)
        requires
            self.wf(),
        ensures
            r matches Ok(ThreadResult::Continue(t)) ==> t.wf(),
            returned(self, self.values@, r),
    {
        let mut t = self;
        check(t.frames.len() > 0)?;
        let k = t.frames.len() - 1;
        let prev_stack = t.frames[k].prev_stack;
        check(prev_stack <= t.values.len())?;
        let ghost vs = t.values@;
        let mut values = t.values.split_off(prev_stack);
        let frame = t.frames.pop().unwrap();
        check(frame.arity <= values.len())?;
        let mid = values.len() - frame.arity;
        let results = values.split_off(mid);
        assert(results@ =~= vs.skip(vs.len() - frame.arity));
        if t.frames.len() == 0 {
            return Ok(ThreadResult::Done(results));
        }
        t.parser = frame.ret;
        t.push_values(results.as_slice());
        Ok(ThreadResult::Continue(t))
    }

    /// Branches to the label at depth `l`, with the branch table entry at `offset`.
    pub fn pop_label(self, store: &Store<'m>, l: u32, offset: usize) -> (r: Result<
        ThreadResult<'m>,
        Error,
    >)
        requires
            self.wf(),
        ensures
            r matches Ok(ThreadResult::Continue(t)) ==> t.wf(),
            branched(self, self.values@, self.parser.pos(), *store, l as int, offset as int, r),
    {
        let mut t = self;
        check(t.frames.len() > 0)?;
        let k = t.frames.len() - 1;
        let cnt = t.frames[k].labels_cnt;
        check((l as usize) < cnt)?;
        let i = cnt - l as usize - 1;
        if i == 0 {
            return t.exit_frame();
        }
        let ghost before = t.frames@;
        t.frames[k].labels_cnt = i;
        proof {
            assert forall|j: int| 0 <= j < t.frames@.len() implies (#[trigger] t.frames@[j]).ret
                == before[j].ret by {}
        }
        let inst_id = t.frames[k].inst_id;
        check(inst_id < store.insts.len())?;
        check(offset <= usize::MAX - t.frames[k].stp)?;
        let entry = store.insts[inst_id].module.branch(t.frames[k].func, t.frames[k].stp + offset)?.view();
        let ghost vs = t.values@;
        let vals = t.pop_values(entry.val_cnt as usize)?;
        let pop = entry.pop_cnt as usize;
        check(pop <= t.values.len())?;
        t.values.truncate(t.values.len() - pop);
        t.push_values(vals.as_slice());
        proof {
            let n = vs.len() as int;
            assert(t.values@ =~= vs.take(n - entry.val_cnt - entry.pop_cnt) + vs.skip(n - entry.val_cnt));
        }
        t.take_jump(store, offset)?;
        Ok(ThreadResult::Continue(t))
    }

    /// Calls the function at `ptr`: a host call suspends the thread in the store.
    pub fn invoke(self, store: &mut Store<'m>, ptr: Ptr) -> (r: Result<ThreadResult<'m>, Error>)
        requires
            self.wf(),
        ensures
            r matches Ok(ThreadResult::Continue(t)) ==> t.wf(),
            r matches Ok(ThreadResult::Host) ==> final(store).threads@.len() == old(store).threads@.len()
                + 1 && final(store).threads@.drop_last() == old(store).threads@,
            r matches Ok(ThreadResult::Host) ==> final(store).threads@.last().thread.wf(),
            !(r matches Ok(ThreadResult::Host)) ==> final(store).threads@ == old(store).threads@,
            final(store).insts@ == old(store).insts@,
            final(store).funcs@ == old(store).funcs@,
            final(store).id == old(store).id,
            r is Ok ==> self.frames@.len() < MAX_FRAMES,
            r matches Ok(ThreadResult::Host) ==> host_called(
                self,
                self.parser.pos(),
                ptr,
                *old(store),
                final(store).threads@.last(),
            ),
            r matches Ok(ThreadResult::Continue(t)) ==> wasm_called(self, self.parser.pos(), ptr, t),
            !(r matches Ok(ThreadResult::Done(_))),
            r is Ok <==> call_ok(self, *old(store), ptr),
            self.frames@.len() >= MAX_FRAMES ==> r == Err::<ThreadResult<'m>, Error>(Error::Trap),
    {
        let mut t = self;
        if t.frames.len() >= MAX_FRAMES {
            return Err(trap());
        }
        let ft = store.func_type(ptr)?;
        match ptr.instance() {
            Side::Host => {
                let index = ptr.index() as usize;
                let arity = ft.results.len();
                let args = t.pop_values(ft.params.len())?;
                store.threads.push(Continuation { thread: t, index, args, arity });
                assert(store.threads@.drop_last() =~= old(store).threads@);
                Ok(ThreadResult::Host)
            },
            Side::Wasm(x) => {
                check(x < store.insts.len())?;
                let idx = ptr.index() as usize;
                let mut parser = store.insts[x].module.func(idx)?;
                let mut locals = t.pop_values(ft.params.len())?;
                append_locals(&mut parser, &mut locals)?;
                let ret = t.parser;
                t.parser = parser;
                let prev_stack = t.values.len();
                let frame = Frame::new(x, ft.results.len(), ret, locals, idx, prev_stack);
                t.frames.push(frame);
                assert(t.frames@.drop_last() =~= self.frames@);
                Ok(ThreadResult::Continue(t))
            },
        }
    }
}

/// The type of the function of an instance at `ptr`, if the instance is in the store `s` and the
/// function's entry is well-formed.
pub open spec fn wasm_func_type<'m>(s: Store<'m>, ptr: Ptr) -> Option<crate::syntax::FuncTypeView> {
    match ptr.spec_instance() {
        Side::Wasm(i) => if i < s.insts@.len() {
            let m = s.insts@[i as int].module;
            match m.spec_func_typeidx(ptr.spec_index()) {
                Some(t) => Some(m.spec_types()[t as int]@),
                None => None,
            }
        } else {
            None
        },
        Side::Host => None,
    }
}

/// Whether calling the function at `ptr` from `t0` in the store `s` succeeds: the thread has room
/// for a frame, the function exists with its arguments on the stack, and for a function of an
/// instance, its body starts with well-formed locals.
pub open spec fn call_ok<'m>(t0: Thread<'m>, s: Store<'m>, ptr: Ptr) -> bool {
    let x = ptr.spec_index() as int;
    &&& t0.frames@.len() < MAX_FRAMES
    &&& match ptr.spec_instance() {
        Side::Host => x < s.funcs@.len() && s.funcs@[x].1@.params.len() <= t0.values@.len(),
        Side::Wasm(i) => match wasm_func_type(s, ptr) {
            Some(t) => {
                let m = s.insts@[i as int].module;
                &&& x < m.spec_side_table().len()
                &&& t.params.len() <= t0.values@.len()
                &&& spec_locals(m.spec_func_body(x)) is Some
            },
            None => false,
        },
    }
}

/// Whether `c` is the continuation of calling the host function at `ptr` from `t0` at the
/// position `pos`: the thread waits there without the arguments, which are the top values, for
/// the results of the function.
pub open spec fn host_called<'m>(t0: Thread<'m>, pos: int, ptr: Ptr, s: Store<'m>, c: Continuation<'m>) -> bool {
    let vs = t0.values@;
    let x = ptr.spec_index() as int;
    let n = s.funcs@[x].1@.params.len();
    &&& ptr.spec_instance() == Side::Host
    &&& x < s.funcs@.len()
    &&& n <= vs.len()
    &&& c.index == x
    &&& c.args@ == vs.skip(vs.len() - n)
    &&& c.arity == s.funcs@[x].1@.results.len()
    &&& c.thread.values@ == vs.take(vs.len() - n)
    &&& c.thread.frames == t0.frames
    &&& c.thread.parser.pos() == pos
}

/// Whether `t` is `t0` calling, at the position `pos`, the function at `ptr` of an instance: a
/// frame is pushed for the function, at the start of its branch table, returning to `pos`, whose
/// locals start with the arguments, which are the top values.
pub open spec fn wasm_called<'m>(t0: Thread<'m>, pos: int, ptr: Ptr, t: Thread<'m>) -> bool {
    let vs = t0.values@;
    let n = t.values@.len();
    let f = t.frames@.last();
    &&& ptr.spec_instance() == Side::Wasm(f.inst_id)
    &&& f.func == ptr.spec_index()
    &&& t.frames@.len() == t0.frames@.len() + 1
    &&& t.frames@.drop_last() == t0.frames@
    &&& f.ret.pos() == pos
    &&& f.stp == 0
    &&& f.labels_cnt == 1
    &&& f.prev_stack == n
    &&& n <= vs.len()
    &&& t.values@ == vs.take(n as int)
    &&& f.locals@.len() >= vs.len() - n
    &&& f.locals@.take(vs.len() - n) == vs.skip(n as int)
}

/// Whether frame `b` is frame `a` with the locals `locals`.
pub open spec fn with_locals<'m>(a: Frame<'m>, b: Frame<'m>, locals: Seq<Val>) -> bool {
    &&& b.inst_id == a.inst_id
    &&& b.arity == a.arity
    &&& b.ret == a.ret
    &&& b.func == a.func
    &&& b.stp == a.stp
    &&& b.prev_stack == a.prev_stack
    &&& b.labels_cnt == a.labels_cnt
    &&& b.locals@ == locals
}

/// Whether an instruction only works on the value stack and the locals of the current frame.
pub open spec fn is_local_instr(i: Instr) -> bool {
    i is Drop || i is Select || i is LocalGet || i is LocalSet || i is LocalTee
}

/// The values and the locals of the current frame after executing the instruction `i` on
/// `vs` with the locals `ls`, or `None` if the operands or the local are missing.
pub open spec fn spec_local_instr(i: Instr, vs: Seq<Val>, ls: Seq<Val>) -> Option<(Seq<Val>, Seq<Val>)> {
    let n = vs.len();
    match i {
        Instr::Drop => if n >= 1 {
            Some((vs.drop_last(), ls))
        } else {
            None
        },
        Instr::Select(_) => if n >= 3 && vs.last() is I32 {
            Some(
                (
                    vs.take(n - 3).push(
                        if vs.last()->I32_0 == 0 {
                            vs[n - 2]
                        } else {
                            vs[n - 3]
                        },
                    ),
                    ls,
                ),
            )
        } else {
            None
        },
        Instr::LocalGet(x) => if x < ls.len() {
            Some((vs.push(ls[x as int]), ls))
        } else {
            None
        },
        Instr::LocalSet(x) => if n >= 1 && x < ls.len() {
            Some((vs.drop_last(), ls.update(x as int, vs.last())))
        } else {
            None
        },
        Instr::LocalTee(x) => if n >= 1 && x < ls.len() {
            Some((vs, ls.update(x as int, vs.last())))
        } else {
            None
        },
        _ => None,
    }
}

/// The locals of the current frame of a thread (none without frame).
pub open spec fn cur_locals<'m>(t: Thread<'m>) -> Seq<Val> {
    if t.frames@.len() > 0 {
        t.frames@.last().locals@
    } else {
        Seq::empty()
    }
}

/// What executing the local instruction `i`, of `n` bytes, does to the thread `t0` in a store of
/// `insts_len` instances: the thread continues after the instruction with the effect of
/// `local_effect`, which it has whenever the operands and the local exist and the current
/// instance is in the store.
pub open spec fn local_step<'m>(
    t0: Thread<'m>,
    i: Instr,
    n: nat,
    insts_len: nat,
    r: Result<ThreadResult<'m>, Error>,
) -> bool {
    let ready = t0.frames@.len() > 0 && t0.frames@.last().inst_id < insts_len;
    &&& match r {
        Ok(ThreadResult::Continue(t)) => t.parser.pos() == t0.parser.pos() + n && local_effect(
            i,
            t0,
            t,
            true,
        ),
        Ok(_) => false,
        Err(_) => true,
    }
    &&& ready ==> (r is Ok <==> spec_local_instr(i, t0.values@, cur_locals(t0)) is Some)
}

/// Whether `t1` and `r` are the outcome of executing the local instruction `i` in `t0` (other
/// than the parser): the values and the locals of the current frame are those of
/// `spec_local_instr`, and the other frames are unchanged.
pub open spec fn local_effect<'m>(i: Instr, t0: Thread<'m>, t1: Thread<'m>, ok: bool) -> bool {
    let k = t0.frames@.len() - 1;
    let res = spec_local_instr(i, t0.values@, cur_locals(t0));
    &&& ok <==> res is Some
    &&& ok ==> {
        &&& t1.values@ == res->Some_0.0
        &&& t1.frames@.len() == t0.frames@.len()
        &&& t0.frames@.len() > 0 ==> with_locals(t0.frames@[k], t1.frames@[k], res->Some_0.1)
        &&& forall|j: int| 0 <= j < k ==> t1.frames@[j] == t0.frames@[j]
    }
}

/// Whether `t1` and `r` are the outcome of loading a number of type `t` from `n / 8` bytes of
/// `mem` (sign-extended if `sx` is signed) at the address on top of the values of `t0`: the
/// address is replaced by the number, or the access traps when out of bounds.
pub open spec fn load_effect<'m>(
    t0: Thread<'m>,
    t1: Thread<'m>,
    mem: Memory,
    t: NumType,
    n: usize,
    sx: Sx,
    m: MemArg,
    r: Result<(), Error>,
) -> bool {
    let vs = t0.values@;
    &&& r is Ok <==> (vs.last() matches Val::I32(i) && vs.len() >= 1 && effective_address(
        i,
        m,
        (n / 8) as nat,
        &mem,
    ) is Some)
    &&& r is Ok ==> {
        let i = vs.last()->I32_0;
        let ea = effective_address(i, m, (n / 8) as nat, &mem)->Some_0;
        t1.values@ == vs.drop_last().push(spec_load(t, sx, mem.data@.subrange(ea as int, ea + n / 8)))
    }
    &&& (vs.last() matches Val::I32(i) && vs.len() >= 1 && effective_address(
        i,
        m,
        (n / 8) as nat,
        &mem,
    ) is None) ==> r == Err::<(), Error>(Error::Trap)
}

/// Whether `t1`, the memory data `data1` and `r` are the outcome of storing the number on top of
/// the values of `t0` as `n / 8` bytes of `mem` at the address below it: both are popped and the
/// bytes written, or the access traps when out of bounds (and the memory is unchanged).
pub open spec fn store_effect<'m>(
    t0: Thread<'m>,
    t1: Thread<'m>,
    mem: Memory,
    data1: Seq<u8>,
    t: NumType,
    n: usize,
    m: MemArg,
    r: Result<(), Error>,
) -> bool {
    let vs = t0.values@;
    let typed = vs.len() >= 2 && vs[vs.len() - 2] is I32 && num_bits(t, vs.last()) is Some;
    let ea = effective_address(vs[vs.len() - 2]->I32_0, m, (n / 8) as nat, &mem);
    &&& r is Ok <==> typed && ea is Some
    &&& r is Ok ==> {
        &&& t1.values@ == vs.drop_last().drop_last()
        &&& data1 == mem.data@.take(ea->Some_0 as int) + le_bytes(
            num_bits(t, vs.last())->Some_0,
            (n / 8) as nat,
        ) + mem.data@.skip(ea->Some_0 + n / 8)
    }
    &&& (typed && ea is None) ==> r == Err::<(), Error>(Error::Trap)
    &&& r is Err ==> data1 == mem.data@
}

/// Whether instance `b` is instance `a` with the memory data `data` and size `size`.
pub open spec fn with_memory<'m>(a: Instance<'m>, b: Instance<'m>, data: Seq<u8>, size: u32) -> bool {
    &&& b.name == a.name
    &&& b.module == a.module
    &&& b.funcs == a.funcs
    &&& b.tables == a.tables
    &&& b.mems.ext == a.mems.ext
    &&& b.mems.int.size == size
    &&& b.mems.int.max == a.mems.int.max
    &&& b.mems.int.data@ == data
    &&& b.globals == a.globals
    &&& b.elems == a.elems
    &&& b.datas == a.datas
}

/// Whether instance `b` is instance `a` where global `k` holds `v`.
pub open spec fn with_global<'m>(a: Instance<'m>, b: Instance<'m>, k: int, v: Val) -> bool {
    &&& b.name == a.name
    &&& b.module == a.module
    &&& b.funcs == a.funcs
    &&& b.tables == a.tables
    &&& b.mems == a.mems
    &&& b.globals.ext == a.globals.ext
    &&& b.globals.int@ == a.globals.int@.update(k, Global { value: v })
    &&& b.elems == a.elems
    &&& b.datas == a.datas
}

/// Whether store `b` is store `a` but for instance `k`.
pub open spec fn store_but<'m>(a: Store<'m>, b: Store<'m>, k: int) -> bool {
    &&& b.id == a.id
    &&& b.funcs == a.funcs
    &&& b.func_default == a.func_default
    &&& b.threads == a.threads
    &&& b.insts@.len() == a.insts@.len()
    &&& forall|j: int| 0 <= j < a.insts@.len() && j != k ==> b.insts@[j] == a.insts@[j]
}

/// Whether store `b` is store `a` where instance `k` has the memory data `data`.
pub open spec fn store_with_memory<'m>(a: Store<'m>, b: Store<'m>, k: int, data: Seq<u8>) -> bool {
    &&& store_but(a, b, k)
    &&& with_memory(a.insts@[k], b.insts@[k], data, a.insts@[k].mems.int.size)
}

/// Whether instance `b` is instance `a` where table `k` holds the elements `elems`.
pub open spec fn with_table<'m>(a: Instance<'m>, b: Instance<'m>, k: int, elems: Seq<Val>) -> bool {
    &&& b.name == a.name
    &&& b.module == a.module
    &&& b.funcs == a.funcs
    &&& b.tables.ext == a.tables.ext
    &&& b.tables.int@.len() == a.tables.int@.len()
    &&& forall|j: int| 0 <= j < a.tables.int@.len() && j != k ==> b.tables.int@[j] == a.tables.int@[j]
    &&& b.tables.int@[k].max == a.tables.int@[k].max
    &&& b.tables.int@[k].elems@ == elems
    &&& b.mems == a.mems
    &&& b.globals == a.globals
    &&& b.elems == a.elems
    &&& b.datas == a.datas
}

/// Whether store `b` is store `a` where table `k` of instance `i` holds the elements `elems`.
pub open spec fn store_with_table<'m>(a: Store<'m>, b: Store<'m>, i: int, k: int, elems: Seq<Val>) -> bool {
    &&& store_but(a, b, i)
    &&& with_table(a.insts@[i], b.insts@[i], k, elems)
}

/// Whether instance `b` is instance `a` where the dropped element and data segments are `elems` and
/// `datas`.
pub open spec fn with_drops<'m>(a: Instance<'m>, b: Instance<'m>, elems: Seq<bool>, datas: Seq<bool>) -> bool {
    &&& b.name == a.name
    &&& b.module == a.module
    &&& b.funcs == a.funcs
    &&& b.tables == a.tables
    &&& b.mems == a.mems
    &&& b.globals == a.globals
    &&& b.elems@ == elems
    &&& b.datas@ == datas
}

/// What `elem.drop x` or `data.drop x` (the instruction `i`) does to instance `inst` of the store
/// `s0`, giving the store `s1`: the segment is marked dropped, or the instruction fails if the
/// instance has no such segment.
pub open spec fn drop_effect<'m>(i: Instr, s0: Store<'m>, s1: Store<'m>, inst: int, r: Result<(), Error>) -> bool {
    let a = s0.insts@[inst];
    match i {
        Instr::ElemDrop(x) => if x < a.elems@.len() {
            r is Ok && store_but(s0, s1, inst) && with_drops(a, s1.insts@[inst], a.elems@.update(x as int, true), a.datas@)
        } else {
            r is Err && s1 == s0
        },
        Instr::DataDrop(x) => if x < a.datas@.len() {
            r is Ok && store_but(s0, s1, inst) && with_drops(a, s1.insts@[inst], a.elems@, a.datas@.update(x as int, true))
        } else {
            r is Err && s1 == s0
        },
        _ => true,
    }
}

/// Whether an instruction reads or writes a table: `table.get`, `table.set`, `table.size`,
/// `table.grow` or `table.fill`.
pub open spec fn is_table_instr(i: Instr) -> bool {
    i is TableGet || i is TableSet || i is TableSize || i is TableGrow || i is TableFill
}

/// What the table instruction `i` does with the values `vs` in instance `inst` of the store `s0`,
/// giving the store `s1` and the values `out`: the table of the instruction is read or written as
/// the instruction's semantics say, with a trap when an index is out of bounds.
pub open spec fn table_effect<'m>(
    i: Instr,
    vs: Seq<Val>,
    s0: Store<'m>,
    s1: Store<'m>,
    inst: int,
    r: Result<(), Error>,
    out: Seq<Val>,
) -> bool {
    let n = vs.len() as int;
    match i {
        Instr::TableGet(x) => {
            &&& s1 == s0
            &&& if n >= 1 && vs[n - 1] is I32 {
                match s0.spec_table_loc(inst, x as int) {
                    Some((a, k)) => {
                        let es = s0.insts@[a].tables.int@[k].elems@;
                        let j = vs[n - 1]->I32_0;
                        if j < es.len() {
                            r is Ok && out == vs.drop_last().push(es[j as int])
                        } else {
                            r == Err::<(), Error>(Error::Trap)
                        }
                    },
                    None => r is Err,
                }
            } else {
                r is Err
            }
        },
        Instr::TableSet(x) => if n >= 2 && vs[n - 2] is I32 {
            match s0.spec_table_loc(inst, x as int) {
                Some((a, k)) => {
                    let es = s0.insts@[a].tables.int@[k].elems@;
                    let j = vs[n - 2]->I32_0;
                    if j < es.len() {
                        r is Ok && out == vs.take(n - 2) && store_with_table(
                            s0,
                            s1,
                            a,
                            k,
                            es.update(j as int, vs[n - 1]),
                        )
                    } else {
                        r == Err::<(), Error>(Error::Trap) && s1 == s0
                    }
                },
                None => r is Err && s1 == s0,
            }
        } else {
            r is Err && s1 == s0
        },
        Instr::TableSize(x) => {
            &&& s1 == s0
            &&& match s0.spec_table_loc(inst, x as int) {
                Some((a, k)) => {
                    let len = s0.insts@[a].tables.int@[k].elems@.len();
                    if len <= u32::MAX {
                        r is Ok && out == vs.push(Val::I32(len as u32))
                    } else {
                        r is Err
                    }
                },
                None => r is Err,
            }
        },
        Instr::TableGrow(x) => if n >= 2 && vs[n - 1] is I32 {
            match s0.spec_table_loc(inst, x as int) {
                Some((a, k)) => {
                    let t = s0.insts@[a].tables.int@[k];
                    let es = t.elems@;
                    if es.len() <= u32::MAX {
                        let (res, grown) = match spec_grow(es.len() as u32, t.max, vs[n - 1]->I32_0) {
                            Some(sz) => (es.len() as u32, es + Seq::new(
                                (sz - es.len()) as nat,
                                |j: int| vs[n - 2],
                            )),
                            None => (u32::MAX, es),
                        };
                        r is Ok && out == vs.take(n - 2).push(Val::I32(res)) && store_with_table(
                            s0,
                            s1,
                            a,
                            k,
                            grown,
                        )
                    } else {
                        r is Err && s1 == s0
                    }
                },
                None => r is Err && s1 == s0,
            }
        } else {
            r is Err && s1 == s0
        },
        Instr::TableFill(x) => if n >= 3 && vs[n - 1] is I32 && vs[n - 3] is I32 {
            match s0.spec_table_loc(inst, x as int) {
                Some((a, k)) => {
                    let es = s0.insts@[a].tables.int@[k].elems@;
                    let d = vs[n - 3]->I32_0;
                    let c = vs[n - 1]->I32_0;
                    if d + c <= es.len() {
                        r is Ok && out == vs.take(n - 3) && store_with_table(
                            s0,
                            s1,
                            a,
                            k,
                            es.take(d as int) + Seq::new(c as nat, |j: int| vs[n - 2]) + es.skip(d + c),
                        )
                    } else {
                        r == Err::<(), Error>(Error::Trap) && store_with_table(s0, s1, a, k, es)
                    }
                },
                None => r is Err && s1 == s0,
            }
        } else {
            r is Err && s1 == s0
        },
        _ => true,
    }
}

/// The type, width and memory argument of a store instruction, if it is one.
pub open spec fn store_kind(i: Instr) -> Option<(NumType, usize, MemArg)> {
    match i {
        Instr::IStore(n, m) => Some((NumType::spec_i(n), n.spec_bits(), m)),
        Instr::FStore(n, m) => Some((NumType::spec_f(n), n.spec_bits(), m)),
        Instr::IStore_(b, m) => Some((NumType::spec_i(b.spec_nx()), b.spec_bits(), m)),
        _ => None,
    }
}

/// The type, width and extension of a load instruction, if it is one.
pub open spec fn load_kind(i: Instr) -> Option<(NumType, usize, Sx, MemArg)> {
    match i {
        Instr::ILoad(n, m) => Some((NumType::spec_i(n), n.spec_bits(), Sx::U, m)),
        Instr::FLoad(n, m) => Some((NumType::spec_f(n), n.spec_bits(), Sx::U, m)),
        Instr::ILoad_(b, sx, m) => Some((NumType::spec_i(b.spec_nx()), b.spec_bits(), sx, m)),
        _ => None,
    }
}

/// The thread that a step continues with (`t0` if it does not continue).
pub open spec fn next_thread<'m>(t0: Thread<'m>, r: Result<ThreadResult<'m>, Error>) -> Thread<'m> {
    match r {
        Ok(ThreadResult::Continue(t)) => t,
        _ => t0,
    }
}

/// Whether a step succeeded, with its error otherwise.
pub open spec fn step_outcome<'m>(r: Result<ThreadResult<'m>, Error>) -> Result<(), Error> {
    match r {
        Ok(_) => Ok(()),
        Err(e) => Err(e),
    }
}

/// What executing the load, `global.get` or `memory.size` instruction `i`, of `n` bytes, does to
/// the thread `t0` in the store `s0`: the thread continues after the instruction, the store is
/// unchanged, and the values are those of the instruction's semantics over the memory or the
/// global of the current instance.
pub open spec fn read_step<'m>(
    t0: Thread<'m>,
    i: Instr,
    n: nat,
    s0: Store<'m>,
    s1: Store<'m>,
    r: Result<ThreadResult<'m>, Error>,
) -> bool {
    let ready = t0.frames@.len() > 0 && t0.frames@.last().inst_id < s0.insts@.len();
    let inst = t0.frames@.last().inst_id as int;
    let t1 = next_thread(t0, r);
    &&& r is Ok ==> (r matches Ok(ThreadResult::Continue(_)) && t1.frames == t0.frames
        && t1.parser.pos() == t0.parser.pos() + n)
    &&& s1 == s0
    &&& ready ==> match (load_kind(i), i) {
        (Some((t, w, sx, m)), _) => match s0.spec_mem_inst(inst) {
            Some(k) => load_effect(t0, t1, s0.insts@[k].mems.int, t, w, sx, m, step_outcome(r)),
            None => r is Err,
        },
        (None, Instr::GlobalGet(x)) => match s0.spec_global_loc(inst, x as int) {
            Some((k, j)) => r is Ok && t1.values@ == t0.values@.push(s0.insts@[k].globals.int@[j].value),
            None => r is Err,
        },
        (None, Instr::MemorySize) => match s0.spec_mem_inst(inst) {
            Some(k) => r is Ok && t1.values@ == t0.values@.push(Val::I32(s0.insts@[k].mems.int.size)),
            None => r is Err,
        },
        _ => true,
    }
}

/// What executing the store instruction `i`, of `n` bytes, does to the thread `t0` in the store
/// `s0`, giving the store `s1`: the thread continues after the instruction, and the memory of the
/// current instance is written as `store_effect` says, the rest of the store being unchanged.
pub open spec fn write_step<'m>(
    t0: Thread<'m>,
    i: Instr,
    n: nat,
    s0: Store<'m>,
    s1: Store<'m>,
    r: Result<ThreadResult<'m>, Error>,
) -> bool {
    let ready = t0.frames@.len() > 0 && t0.frames@.last().inst_id < s0.insts@.len();
    let inst = t0.frames@.last().inst_id as int;
    let t1 = next_thread(t0, r);
    &&& r is Ok ==> (r matches Ok(ThreadResult::Continue(_)) && t1.frames == t0.frames
        && t1.parser.pos() == t0.parser.pos() + n)
    &&& ready ==> match store_kind(i) {
        Some((t, w, m)) => match s0.spec_mem_inst(inst) {
            Some(k) => {
                &&& store_effect(t0, t1, s0.insts@[k].mems.int, s1.insts@[k].mems.int.data@, t, w, m, step_outcome(r))
                &&& store_with_memory(s0, s1, k, s1.insts@[k].mems.int.data@)
            },
            None => r is Err && s1 == s0,
        },
        None => true,
    }
}

/// What executing `global.set` or `memory.grow` (the instruction `i`, of `n` bytes) does to the
/// thread `t0` in the store `s0`, giving the store `s1`: the global of the current instance takes
/// the popped value, or its memory grows by the popped number of pages if it stays within its
/// maximum (the old size is pushed, or `u32::MAX` if it cannot grow).
pub open spec fn update_step<'m>(
    t0: Thread<'m>,
    i: Instr,
    n: nat,
    s0: Store<'m>,
    s1: Store<'m>,
    r: Result<ThreadResult<'m>, Error>,
) -> bool {
    let ready = t0.frames@.len() > 0 && t0.frames@.last().inst_id < s0.insts@.len();
    let inst = t0.frames@.last().inst_id as int;
    let t1 = next_thread(t0, r);
    let vs = t0.values@;
    &&& r is Ok ==> (r matches Ok(ThreadResult::Continue(_)) && t1.frames == t0.frames
        && t1.parser.pos() == t0.parser.pos() + n)
    &&& ready ==> match i {
        Instr::GlobalSet(x) => if vs.len() == 0 {
            r is Err && s1 == s0
        } else {
            match s0.spec_global_loc(inst, x as int) {
                Some((k, j)) => {
                    &&& r is Ok
                    &&& t1.values@ == vs.drop_last()
                    &&& store_but(s0, s1, k)
                    &&& with_global(s0.insts@[k], s1.insts@[k], j, vs.last())
                },
                None => r is Err && s1 == s0,
            }
        },
        Instr::MemoryGrow => if !(vs.len() > 0 && vs.last() is I32) {
            r is Err && s1 == s0
        } else {
            match s0.spec_mem_inst(inst) {
                Some(k) => {
                    let mem = s0.insts@[k].mems.int;
                    let (res, size) = match spec_grow(mem.size, mem.max, vs.last()->I32_0) {
                        Some(s) => (mem.size, s),
                        None => (u32::MAX, mem.size),
                    };
                    &&& r is Ok
                    &&& t1.values@ == vs.drop_last().push(Val::I32(res))
                    &&& store_but(s0, s1, k)
                    &&& with_memory(s0.insts@[k], s1.insts@[k], mem.data@, size)
                },
                None => r is Err && s1 == s0,
            }
        },
        _ => true,
    }
}

/// What executing `call x` (of `n` bytes) does to the thread `t0` in the store `s0`, giving the
/// store `s1`: the function `x` of the current instance is called, a host function by suspending
/// the thread in the store, a function of an instance by pushing its frame.
pub open spec fn call_step<'m>(
    t0: Thread<'m>,
    x: u32,
    n: nat,
    s0: Store<'m>,
    s1: Store<'m>,
    r: Result<ThreadResult<'m>, Error>,
) -> bool {
    let ready = t0.frames@.len() > 0 && t0.frames@.last().inst_id < s0.insts@.len();
    let inst = t0.frames@.last().inst_id as int;
    let pos = t0.parser.pos() + n;
    &&& !(r matches Ok(ThreadResult::Done(_)))
    &&& ready ==> match s0.insts@[inst].funcs.spec_ptr(inst, x as int) {
        Some(p) => {
            &&& r matches Ok(ThreadResult::Host) ==> host_called(t0, pos, p, s0, s1.threads@.last())
            &&& r matches Ok(ThreadResult::Continue(t)) ==> wasm_called(t0, pos, p, t)
        },
        None => r is Err,
    }
}

/// What executing `call_indirect y x` (of `n` bytes) does to the thread `t0` in the store `s0`,
/// giving the store `s1`: the `i32` on top is popped and indexes the table `x` of the current
/// instance, which traps when out of bounds or on a null reference, and otherwise the function of
/// the reference is called (as `call` does) with the values below. A host function whose type is
/// not the type `y` of the module traps.
pub open spec fn call_indirect_step<'m>(
    t0: Thread<'m>,
    x: u32,
    y: u32,
    n: nat,
    s0: Store<'m>,
    s1: Store<'m>,
    r: Result<ThreadResult<'m>, Error>,
) -> bool {
    let ready = t0.frames@.len() > 0 && t0.frames@.last().inst_id < s0.insts@.len();
    let inst = t0.frames@.last().inst_id as int;
    let pos = t0.parser.pos() + n;
    let vs = t0.values@;
    let types = s0.insts@[inst].module.spec_types();
    &&& !(r matches Ok(ThreadResult::Done(_)))
    &&& ready ==> if vs.len() > 0 && vs.last() is I32 {
        match s0.spec_table_loc(inst, x as int) {
            Some((a, k)) => {
                let es = s0.insts@[a].tables.int@[k].elems@;
                let j = vs.last()->I32_0;
                if j >= es.len() || es[j as int] is Null {
                    r == Err::<ThreadResult<'m>, Error>(Error::Trap)
                } else if let Val::Ref(p) = es[j as int] {
                    &&& r is Ok ==> y < types.len()
                    &&& (p.spec_instance() is Host && p.spec_index() < s0.funcs@.len() && y < types.len()
                        && s0.funcs@[p.spec_index() as int].1@ != types[y as int]@) ==> r
                        == Err::<ThreadResult<'m>, Error>(Error::Trap)
                    &&& r matches Ok(ThreadResult::Host) ==> exists|tm: Thread<'m>|
                        tm.values@ == vs.drop_last() && tm.frames == t0.frames && #[trigger] host_called(
                            tm,
                            pos,
                            p,
                            s0,
                            s1.threads@.last(),
                        )
                    &&& r matches Ok(ThreadResult::Continue(t)) ==> exists|tm: Thread<'m>|
                        tm.values@ == vs.drop_last() && tm.frames == t0.frames && #[trigger] wasm_called(
                            tm,
                            pos,
                            p,
                            t,
                        )
                } else {
                    r is Err
                }
            },
            None => r is Err,
        }
    } else {
        r is Err
    }
}

/// The three `i32` values on top of `vs`, the last one on top.
pub open spec fn spec_top3(vs: Seq<Val>) -> Option<(u32, u32, u32)> {
    let n = vs.len();
    if n >= 3 && vs[n - 3] is I32 && vs[n - 2] is I32 && vs[n - 1] is I32 {
        Some((vs[n - 3]->I32_0, vs[n - 2]->I32_0, vs[n - 1]->I32_0))
    } else {
        None
    }
}

/// The memory data after `memory.copy` of `n` bytes from `s` to `d`, or `memory.fill` of `n`
/// bytes at `d` with `val % 256`, if within `mem`.
pub open spec fn spec_bulk_memory(i: Instr, mem: Memory, d: int, v: int, n: int) -> Option<Seq<u8>> {
    let data = mem.data@;
    match i {
        Instr::MemoryCopy => if v + n <= mem.spec_len() && d + n <= mem.spec_len() {
            Some(data.take(d) + data.subrange(v, v + n) + data.skip(d + n))
        } else {
            None
        },
        Instr::MemoryFill => if d + n <= mem.spec_len() {
            Some(data.take(d) + Seq::new(n as nat, |k: int| (v % 256) as u8) + data.skip(d + n))
        } else {
            None
        },
        _ => None,
    }
}

/// What executing `memory.copy` or `memory.fill` (the instruction `i`, of `n` bytes) does to the
/// thread `t0` in the store `s0`, giving the store `s1`: the three operands are popped and the
/// memory of the current instance is written as `spec_bulk_memory` says, or the instruction traps
/// when out of bounds and leaves the memory as it was.
pub open spec fn bulk_step<'m>(
    t0: Thread<'m>,
    i: Instr,
    n: nat,
    s0: Store<'m>,
    s1: Store<'m>,
    r: Result<ThreadResult<'m>, Error>,
) -> bool {
    let ready = t0.frames@.len() > 0 && t0.frames@.last().inst_id < s0.insts@.len();
    let inst = t0.frames@.last().inst_id as int;
    let t1 = next_thread(t0, r);
    let vs = t0.values@;
    &&& r is Ok ==> (r matches Ok(ThreadResult::Continue(_)) && t1.frames == t0.frames
        && t1.parser.pos() == t0.parser.pos() + n)
    &&& ready ==> match (spec_top3(vs), s0.spec_mem_inst(inst)) {
        (Some((a, b, c)), Some(k)) => match spec_bulk_memory(i, s0.insts@[k].mems.int, a as int, b as int, c as int) {
            Some(data) => {
                &&& r is Ok
                &&& t1.values@ == vs.take(vs.len() - 3)
                &&& store_with_memory(s0, s1, k, data)
            },
            None => r == Err::<ThreadResult<'m>, Error>(Error::Trap) && store_with_memory(
                s0,
                s1,
                k,
                s0.insts@[k].mems.int.data@,
            ),
        },
        _ => r is Err,
    }
}

/// What executing the table instruction `i` (of `n` bytes) does to the thread `t0` in the store
/// `s0`, giving the store `s1`: the thread continues after the instruction, and the table of the
/// current instance is read or written as `table_effect` says.
pub open spec fn table_step<'m>(
    t0: Thread<'m>,
    i: Instr,
    n: nat,
    s0: Store<'m>,
    s1: Store<'m>,
    r: Result<ThreadResult<'m>, Error>,
) -> bool {
    let ready = t0.frames@.len() > 0 && t0.frames@.last().inst_id < s0.insts@.len();
    let inst = t0.frames@.last().inst_id as int;
    let t1 = next_thread(t0, r);
    &&& r is Ok ==> (r matches Ok(ThreadResult::Continue(_)) && t1.frames == t0.frames
        && t1.parser.pos() == t0.parser.pos() + n)
    &&& ready ==> table_effect(i, t0.values@, s0, s1, inst, step_outcome(r), t1.values@)
}

/// What executing `elem.drop`, `data.drop` or `ref.func` (the instruction `i`, of `n` bytes) does
/// to the thread `t0` in the store `s0`, giving the store `s1`: the segment of the current instance
/// is marked dropped, or the reference to the function of the current instance is pushed.
pub open spec fn segment_step<'m>(
    t0: Thread<'m>,
    i: Instr,
    n: nat,
    s0: Store<'m>,
    s1: Store<'m>,
    r: Result<ThreadResult<'m>, Error>,
) -> bool {
    let ready = t0.frames@.len() > 0 && t0.frames@.last().inst_id < s0.insts@.len();
    let inst = t0.frames@.last().inst_id as int;
    let t1 = next_thread(t0, r);
    &&& r is Ok ==> (r matches Ok(ThreadResult::Continue(_)) && t1.frames == t0.frames
        && t1.parser.pos() == t0.parser.pos() + n)
    &&& ready ==> match i {
        Instr::RefFunc(x) => {
            &&& s1 == s0
            &&& match s0.insts@[inst].funcs.spec_ptr(inst, x as int) {
                Some(p) => r is Ok && t1.values@ == t0.values@.push(Val::Ref(p)),
                None => r is Err,
            }
        },
        _ => t1.values == t0.values && drop_effect(i, s0, s1, inst, step_outcome(r)),
    }
}

/// Whether an instruction only reads the store: a load, `global.get` or `memory.size`.
pub open spec fn is_read_instr(i: Instr) -> bool {
    load_kind(i) is Some || i is GlobalGet || i is MemorySize
}

/// The branch table entry at `offset` after the current one of the current frame of `t`.
pub open spec fn branch_entry<'m>(t: Thread<'m>, s: Store<'m>, offset: int) -> Option<BranchTableEntryView> {
    if t.frames@.len() > 0 {
        let f = t.frames@.last();
        let es = s.insts@[f.inst_id as int].module.spec_side_table();
        let x = f.func as int;
        let i = f.stp + offset;
        if f.inst_id < s.insts@.len() && x < es.len() && i < es[x].branch_table@.len() {
            Some(decode_entry(es[x].branch_table@[i].bytes()))
        } else {
            None
        }
    } else {
        None
    }
}

/// Whether the branch of the entry at `offset` after the current one of the current frame of `t`
/// can be taken: the entry exists and leads within the branch table positions and the code.
pub open spec fn can_jump<'m>(t: Thread<'m>, s: Store<'m>, offset: int) -> bool {
    let stp = t.frames@.last().stp + offset;
    &&& t.frames@.len() > 0
    &&& stp <= usize::MAX
    &&& branch_entry(t, s, offset) matches Some(e)
    &&& 0 <= stp + e.delta_stp <= usize::MAX
    &&& 0 <= t.parser.pos() + e.delta_ip <= t.parser.limit()
}

/// Whether frame `b` is frame `a` at the position `stp` in its branch table and with `labels`
/// entered labels.
pub open spec fn frame_moved<'m>(a: Frame<'m>, b: Frame<'m>, stp: int, labels: int) -> bool {
    &&& b.inst_id == a.inst_id
    &&& b.arity == a.arity
    &&& b.ret == a.ret
    &&& b.locals == a.locals
    &&& b.func == a.func
    &&& b.prev_stack == a.prev_stack
    &&& b.stp == stp
    &&& b.labels_cnt == labels
}

/// Whether the frames of `t1` are those of `t0` where the current frame is at the position `stp`
/// in its branch table and has `labels` entered labels.
pub open spec fn moved<'m>(t0: Thread<'m>, t1: Thread<'m>, stp: int, labels: int) -> bool {
    let k = t0.frames@.len() - 1;
    &&& t0.frames@.len() > 0
    &&& t1.frames@.len() == t0.frames@.len()
    &&& forall|j: int| 0 <= j < k ==> t1.frames@[j] == t0.frames@[j]
    &&& frame_moved(t0.frames@[k], t1.frames@[k], stp, labels)
}

/// Whether `t1` is `t0` after taking the branch of `entry` at `offset` from the position `pos`:
/// the code continues `delta_ip` bytes further, the branch table `delta_stp` entries further, and
/// the current frame has `labels` entered labels.
pub open spec fn jumped<'m>(
    t0: Thread<'m>,
    t1: Thread<'m>,
    entry: BranchTableEntryView,
    offset: int,
    labels: int,
    pos: int,
) -> bool {
    let k = t0.frames@.len() - 1;
    &&& t1.frames@.len() == t0.frames@.len()
    &&& forall|j: int| 0 <= j < k ==> t1.frames@[j] == t0.frames@[j]
    &&& frame_moved(t0.frames@[k], t1.frames@[k], t0.frames@[k].stp + offset + entry.delta_stp, labels)
    &&& t1.parser.pos() == pos + entry.delta_ip
}

/// Whether `r` is the outcome of returning from the current frame of `t0` with the values `vs`:
/// the values of the frame are dropped but its results (the top values), and execution continues
/// in the caller, or is done with the results if there is no caller.
pub open spec fn returned<'m>(t0: Thread<'m>, vs: Seq<Val>, r: Result<ThreadResult<'m>, Error>) -> bool {
    let k = t0.frames@.len() - 1;
    let f = t0.frames@[k];
    let ok = t0.frames@.len() > 0 && f.prev_stack <= vs.len() && f.arity <= vs.len() - f.prev_stack;
    let results = vs.skip(vs.len() - f.arity);
    &&& r is Ok <==> ok
    &&& !(r matches Ok(ThreadResult::Host))
    &&& (ok && t0.frames@.len() == 1) ==> (r matches Ok(ThreadResult::Done(v)) && v@ == results)
    &&& (ok && t0.frames@.len() > 1) ==> (r matches Ok(ThreadResult::Continue(t)) && t.values@ == vs.take(
        f.prev_stack as int,
    ) + results && t.frames@ == t0.frames@.drop_last() && t.parser == f.ret)
}

/// Whether `r` is the outcome of leaving the innermost label of the current frame of `t0` at its
/// end (the position `pos`): the label is left, and leaving the last one returns from the frame
/// with its top `arity` values (the thread is done if there is no caller).
pub open spec fn ended<'m>(t0: Thread<'m>, pos: int, r: Result<ThreadResult<'m>, Error>) -> bool {
    let vs = t0.values@;
    let k = t0.frames@.len() - 1;
    let f = t0.frames@[k];
    let ok = t0.frames@.len() > 0 && f.labels_cnt > 0;
    &&& !(r matches Ok(ThreadResult::Host))
    &&& r is Ok ==> ok
    &&& (ok && f.labels_cnt > 1) ==> {
        &&& r matches Ok(ThreadResult::Continue(t))
        &&& t.values == t0.values
        &&& t.parser.pos() == pos
        &&& t.frames@.len() == t0.frames@.len()
        &&& forall|j: int| 0 <= j < k ==> t.frames@[j] == t0.frames@[j]
        &&& frame_moved(f, t.frames@[k], f.stp as int, f.labels_cnt - 1)
    }
    &&& (ok && f.labels_cnt == 1) ==> if f.arity <= vs.len() {
        let results = vs.skip(vs.len() - f.arity);
        if t0.frames@.len() == 1 {
            r matches Ok(ThreadResult::Done(v)) && v@ == results
        } else {
            r matches Ok(ThreadResult::Continue(t)) && t.values@ == vs && t.frames@
                == t0.frames@.drop_last() && t.parser == f.ret
        }
    } else {
        r is Err
    }
}

/// Whether `r` is the outcome of branching from the position `pos`, with the values `vs`, to the
/// label `l` (counted from the innermost) of the current frame of `t0` with the branch table entry
/// at `offset`: branching out of all the labels returns from the frame; otherwise the top
/// `val_cnt` values are kept, the `pop_cnt` values below them dropped, and the code continues
/// where the entry says.
pub open spec fn branched<'m>(
    t0: Thread<'m>,
    vs: Seq<Val>,
    pos: int,
    s: Store<'m>,
    l: int,
    offset: int,
    r: Result<ThreadResult<'m>, Error>,
) -> bool {
    let n = vs.len() as int;
    let cnt = t0.frames@.last().labels_cnt as int;
    let ok = t0.frames@.len() > 0 && l < cnt;
    &&& !(r matches Ok(ThreadResult::Host))
    &&& r is Ok ==> ok
    &&& (ok && cnt - l - 1 == 0) ==> returned(t0, vs, r)
    &&& (ok && cnt - l - 1 > 0 && r is Ok) ==> {
        &&& branch_entry(t0, s, offset) matches Some(e)
        &&& e.val_cnt + e.pop_cnt <= n
        &&& r matches Ok(ThreadResult::Continue(t1))
        &&& t1.values@ == vs.take(n - e.val_cnt - e.pop_cnt) + vs.skip(n - e.val_cnt)
        &&& jumped(t0, t1, e, offset, cnt - l - 1, pos)
    }
}

/// Whether `r` is the outcome of `br_table ls ln` from the position `pos` in `t0`: the popped
/// index selects the label of `ls` (with the entry after the current one at that index) or else
/// the default label `ln`.
pub open spec fn br_table_effect<'m>(
    t0: Thread<'m>,
    ls: Seq<u32>,
    ln: u32,
    pos: int,
    s: Store<'m>,
    r: Result<ThreadResult<'m>, Error>,
) -> bool {
    let vs = t0.values@;
    if vs.len() > 0 && vs.last() is I32 {
        let i = vs.last()->I32_0 as int;
        if i < ls.len() {
            branched(t0, vs.drop_last(), pos, s, ls[i] as int, i + 1, r)
        } else {
            branched(t0, vs.drop_last(), pos, s, ln as int, 0, r)
        }
    } else {
        r is Err
    }
}

/// Whether `r` is the outcome of the structured control instruction `i` at the position `pos` in
/// `t0` (the position after the instruction), as far as blocks, conditionals and branches go.
pub open spec fn control_effect<'m>(
    t0: Thread<'m>,
    i: Instr,
    pos: int,
    s: Store<'m>,
    r: Result<ThreadResult<'m>, Error>,
) -> bool {
    let vs = t0.values@;
    let f = t0.frames@.last();
    match i {
        Instr::Block(_) | Instr::Loop(_) => {
            &&& r is Ok <==> t0.frames@.len() > 0 && f.labels_cnt < usize::MAX
            &&& r is Ok ==> (r matches Ok(ThreadResult::Continue(t1)) && t1.values == t0.values
                && t1.parser.pos() == pos && moved(t0, t1, f.stp as int, f.labels_cnt + 1))
        },
        Instr::If(_) => if vs.len() > 0 && vs.last() is I32 {
            if vs.last()->I32_0 == 0 {
                r is Ok ==> (r matches Ok(ThreadResult::Continue(t1)) && branch_entry(t0, s, 0)
                    matches Some(e) && t1.values@ == vs.drop_last() && jumped(
                    t0,
                    t1,
                    e,
                    0,
                    f.labels_cnt + 1,
                    pos,
                ))
            } else {
                &&& r is Ok <==> t0.frames@.len() > 0 && f.stp < usize::MAX && f.labels_cnt < usize::MAX
                &&& r is Ok ==> (r matches Ok(ThreadResult::Continue(t1)) && t1.values@ == vs.drop_last()
                    && t1.parser.pos() == pos && moved(t0, t1, f.stp + 1, f.labels_cnt + 1))
            }
        } else {
            r is Err
        },
        Instr::Else => r is Ok ==> (branch_entry(t0, s, 0) matches Some(e) && exists|tm: Thread<'m>|
            jumped(t0, tm, e, 0, f.labels_cnt as int, pos) && tm.values == t0.values && #[trigger] ended(
                tm,
                pos + e.delta_ip,
                r,
            )),
        Instr::End => ended(t0, pos, r),
        Instr::Br(l) => branched(t0, vs, pos, s, l as int, 0, r),
        Instr::BrIf(l) => if vs.len() > 0 && vs.last() is I32 {
            if vs.last()->I32_0 != 0 {
                branched(t0, vs.drop_last(), pos, s, l as int, 0, r)
            } else {
                &&& r is Ok <==> t0.frames@.len() > 0 && f.stp < usize::MAX
                &&& r is Ok ==> (r matches Ok(ThreadResult::Continue(t1)) && t1.values@ == vs.drop_last()
                    && t1.parser.pos() == pos && moved(t0, t1, f.stp + 1, f.labels_cnt as int))
            }
        } else {
            r is Err
        },
        Instr::BrTable(ls, ln) => br_table_effect(t0, ls@, ln, pos, s, r),
        Instr::Return => returned(t0, vs, r),
        _ => true,
    }
}

/// What executing the instruction `i` that computes on the values alone, of `n` bytes, does to the
/// thread `t0` in a store of `insts_len` instances: on success, the thread continues after the instruction with
/// the values of the instruction's semantics; it succeeds whenever those exist and the current
/// instance is in the store, and traps where the operation traps.
pub open spec fn pure_step<'m>(
    t0: Thread<'m>,
    i: Instr,
    n: nat,
    insts_len: nat,
    r: Result<ThreadResult<'m>, Error>,
) -> bool {
    let ready = t0.frames@.len() > 0 && t0.frames@.last().inst_id < insts_len;
    let vs = spec_pure_instr(i, t0.values@);
    &&& match r {
        Ok(ThreadResult::Continue(t)) => {
            &&& vs is Some
            &&& t.values@ == vs->Some_0
            &&& t.frames == t0.frames
            &&& t.parser.pos() == t0.parser.pos() + n
        },
        Ok(_) => false,
        Err(_) => true,
    }
    &&& ready ==> (r is Ok <==> vs is Some)
    &&& (ready && pure_instr_traps(i, t0.values@)) ==> r == Err::<ThreadResult<'m>, Error>(
        Error::Trap,
    )
}

impl<'m> Thread<'m> {
    /// Executes the next instruction, with `float` for floating-point arithmetic.
    pub fn step<F: Float>(self, store: &mut Store<'m>, float: &F) -> (r: Result<ThreadResult<'m>, Error>)
        requires
            self.wf(),
        ensures
            r matches Ok(ThreadResult::Continue(t)) ==> t.wf(),
            r matches Ok(ThreadResult::Host) ==> final(store).threads@.len() == old(store).threads@.len()
                + 1 && final(store).threads@.drop_last() == old(store).threads@,
            r matches Ok(ThreadResult::Host) ==> final(store).threads@.last().thread.wf(),
            !(r matches Ok(ThreadResult::Host)) ==> final(store).threads@ == old(store).threads@,
            final(store).id == old(store).id,
            final(store).funcs@ == old(store).funcs@,
            final(store).insts@.len() == old(store).insts@.len(),
            match spec_instr(self.parser.rest()) {
                Ok((InstrView::Plain(Instr::Unreachable), _)) => {
                    &&& r is Err
                    &&& (self.frames@.len() > 0 && self.frames@.last().inst_id < old(store).insts@.len())
                        ==> r == Err::<ThreadResult<'m>, Error>(Error::Trap)
                },
                Ok((InstrView::Plain(Instr::Nop), n)) => {
                    &&& r matches Ok(ThreadResult::Continue(t)) ==> t.values == self.values && t.frames
                        == self.frames && t.parser.pos() == self.parser.pos() + n
                    &&& (self.frames@.len() > 0 && self.frames@.last().inst_id < old(store).insts@.len())
                        ==> r is Ok
                },
                Ok((InstrView::Plain(i), n)) => {
                    &&& is_pure_instr(i) ==> pure_step(self, i, n, old(store).insts@.len(), r)
                    &&& is_local_instr(i) ==> local_step(self, i, n, old(store).insts@.len(), r)
                    &&& is_read_instr(i) ==> read_step(self, i, n, *old(store), *final(store), r)
                    &&& store_kind(i) is Some ==> write_step(self, i, n, *old(store), *final(store), r)
                    &&& (i is GlobalSet || i is MemoryGrow) ==> update_step(self, i, n, *old(store), *final(store), r)
                    &&& (self.frames@.len() > 0 && self.frames@.last().inst_id < old(store).insts@.len())
                        ==> control_effect(self, i, self.parser.pos() + n, *old(store), r)
                    &&& i matches Instr::Call(x) ==> call_step(self, x, n, *old(store), *final(store), r)
                    &&& i matches Instr::CallIndirect(x, y) ==> call_indirect_step(self, x, y, n, *old(store), *final(store), r)
                    &&& (i is MemoryCopy || i is MemoryFill) ==> bulk_step(self, i, n, *old(store), *final(store), r)
                    &&& is_table_instr(i) ==> table_step(self, i, n, *old(store), *final(store), r)
                    &&& (i is ElemDrop || i is DataDrop || i is RefFunc) ==> segment_step(self, i, n, *old(store), *final(store), r)
                },
                Ok((InstrView::BrTable(ls, ln), n)) => (self.frames@.len() > 0 && self.frames@.last().inst_id
                    < old(store).insts@.len()) ==> br_table_effect(
                    self,
                    ls,
                    ln,
                    self.parser.pos() + n,
                    *old(store),
                    r,
                ),
                Ok((InstrView::Select(_), n)) => local_step(
                    self,
                    Instr::Select(None),
                    n,
                    old(store).insts@.len(),
                    r,
                ),
                _ => true,
            },
    {
        let mut t = self;
        let inst_id = t.inst_id()?;
        check(inst_id < store.insts.len())?;
        let instr = t.parser.parse_instr()?;
        match instr {
            crate::syntax::Instr::Unreachable | crate::syntax::Instr::Nop
            | crate::syntax::Instr::Block(_) | crate::syntax::Instr::Loop(_)
            | crate::syntax::Instr::If(_) | crate::syntax::Instr::Else | crate::syntax::Instr::End
            | crate::syntax::Instr::Br(_) | crate::syntax::Instr::BrIf(_)
            | crate::syntax::Instr::BrTable(..) | crate::syntax::Instr::Return
            | crate::syntax::Instr::Call(_) | crate::syntax::Instr::CallIndirect(..) => {
                t.step_control(store, inst_id, instr)
            },
            crate::syntax::Instr::Drop | crate::syntax::Instr::Select(_)
            | crate::syntax::Instr::LocalGet(_) | crate::syntax::Instr::LocalSet(_)
            | crate::syntax::Instr::LocalTee(_) | crate::syntax::Instr::GlobalGet(_)
            | crate::syntax::Instr::GlobalSet(_) | crate::syntax::Instr::TableGet(_)
            | crate::syntax::Instr::TableSet(_) | crate::syntax::Instr::ILoad(..)
            | crate::syntax::Instr::FLoad(..) | crate::syntax::Instr::ILoad_(..)
            | crate::syntax::Instr::IStore(..) | crate::syntax::Instr::FStore(..)
            | crate::syntax::Instr::IStore_(..) | crate::syntax::Instr::MemorySize
            | crate::syntax::Instr::MemoryGrow => {
                t.step_variable(store, inst_id, instr)?;
                Ok(ThreadResult::Continue(t))
            },
            crate::syntax::Instr::MemoryInit(_) | crate::syntax::Instr::DataDrop(_)
            | crate::syntax::Instr::MemoryCopy | crate::syntax::Instr::MemoryFill
            | crate::syntax::Instr::TableInit(..) | crate::syntax::Instr::ElemDrop(_)
            | crate::syntax::Instr::TableCopy(..) | crate::syntax::Instr::TableGrow(_)
            | crate::syntax::Instr::TableSize(_) | crate::syntax::Instr::TableFill(_) => {
                t.step_bulk(store, inst_id, instr)?;
                Ok(ThreadResult::Continue(t))
            },
            _ => {
                t.step_numeric(store, inst_id, instr, float)?;
                Ok(ThreadResult::Continue(t))
            },
        }
    }

    /// Executes a control instruction.
    pub fn step_control(self, store: &mut Store<'m>, inst_id: usize, instr: crate::syntax::Instr) -> (r:
        Result<ThreadResult<'m>, Error>)
        requires
            self.wf(),
            inst_id < old(store).insts@.len(),
            self.frames@.len() > 0 && self.frames@.last().inst_id == inst_id,
        ensures
            r matches Ok(ThreadResult::Continue(t)) ==> t.wf(),
            r matches Ok(ThreadResult::Host) ==> final(store).threads@.len() == old(store).threads@.len()
                + 1 && final(store).threads@.drop_last() == old(store).threads@,
            r matches Ok(ThreadResult::Host) ==> final(store).threads@.last().thread.wf(),
            !(r matches Ok(ThreadResult::Host)) ==> final(store).threads@ == old(store).threads@,
            final(store).id == old(store).id,
            final(store).funcs@ == old(store).funcs@,
            final(store).insts@ == old(store).insts@,
            instr is Unreachable ==> r == Err::<ThreadResult<'m>, Error>(Error::Trap),
            instr is Nop ==> r == Ok::<ThreadResult<'m>, Error>(ThreadResult::Continue(self)),
            control_effect(self, instr, self.parser.pos(), *old(store), r),
            instr matches Instr::CallIndirect(x, y) ==> call_indirect_step(self, x, y, 0, *old(store), *final(store), r),
            instr matches Instr::Call(x) ==> {
                &&& !(r matches Ok(ThreadResult::Done(_)))
                &&& match old(store).insts@[inst_id as int].funcs.spec_ptr(inst_id as int, x as int) {
                    Some(p) => {
                        &&& r matches Ok(ThreadResult::Host) ==> host_called(
                            self,
                            self.parser.pos(),
                            p,
                            *old(store),
                            final(store).threads@.last(),
                        )
                        &&& r matches Ok(ThreadResult::Continue(t)) ==> wasm_called(self, self.parser.pos(), p, t)
                    },
                    None => r is Err,
                }
            },
    {
        let mut t = self;
        match instr {
            crate::syntax::Instr::Unreachable => Err(trap()),
            crate::syntax::Instr::Nop => Ok(ThreadResult::Continue(t)),
            crate::syntax::Instr::Block(_) | crate::syntax::Instr::Loop(_) => {
                t.push_label()?;
                Ok(ThreadResult::Continue(t))
            },
            crate::syntax::Instr::If(_) => {
                let c = t.pop_value()?.unwrap_i32()?;
                if c == 0 {
                    t.take_jump(store, 0)?;
                } else {
                    t.skip_jump()?;
                }
                t.push_label()?;
                Ok(ThreadResult::Continue(t))
            },
            crate::syntax::Instr::Else => {
                t.take_jump(store, 0)?;
                let ghost tm = t;
                let r = t.exit_label();
                proof {
                    let e = branch_entry(self, *store, 0)->Some_0;
                    assert(jumped(self, tm, e, 0, self.frames@.last().labels_cnt as int, self.parser.pos()));
                }
                r
            },
            crate::syntax::Instr::End => t.exit_label(),
            crate::syntax::Instr::Br(l) => t.pop_label(store, l, 0),
            crate::syntax::Instr::BrIf(l) => {
                if t.pop_value()?.unwrap_i32()? != 0 {
                    return t.pop_label(store, l, 0);
                }
                t.skip_jump()?;
                Ok(ThreadResult::Continue(t))
            },
            crate::syntax::Instr::BrTable(ls, ln) => {
                let i = t.pop_value()?.unwrap_i32()? as usize;
                if i < ls.len() {
                    let l = ls[i];
                    t.pop_label(store, l, i + 1)
                } else {
                    t.pop_label(store, ln, 0)
                }
            },
            crate::syntax::Instr::Return => t.exit_frame(),
            crate::syntax::Instr::Call(x) => {
                let ptr = store.func_ptr(inst_id, x)?;
                t.invoke(store, ptr)
            },
            crate::syntax::Instr::CallIndirect(x, y) => t.call_indirect(store, inst_id, x, y),
            _ => Err(invalid()),
        }
    }

    /// Executes `call_indirect y x` (type `y`, table `x`) in instance `inst_id`.
    fn call_indirect(self, store: &mut Store<'m>, inst_id: usize, x: u32, y: u32) -> (r: Result<ThreadResult<'m>, Error>)
        requires
            self.wf(),
            inst_id < old(store).insts@.len(),
            self.frames@.len() > 0 && self.frames@.last().inst_id == inst_id,
        ensures
            r matches Ok(ThreadResult::Continue(t)) ==> t.wf(),
            r matches Ok(ThreadResult::Host) ==> final(store).threads@.len() == old(store).threads@.len()
                + 1 && final(store).threads@.drop_last() == old(store).threads@,
            r matches Ok(ThreadResult::Host) ==> final(store).threads@.last().thread.wf(),
            !(r matches Ok(ThreadResult::Host)) ==> final(store).threads@ == old(store).threads@,
            final(store).id == old(store).id,
            final(store).funcs@ == old(store).funcs@,
            final(store).insts@ == old(store).insts@,
            call_indirect_step(self, x, y, 0, *old(store), *final(store), r),
    {
        let mut t = self;
        let i = t.pop_value()?.unwrap_i32()? as usize;
        let ghost tm = t;
        let (ti, tk) = store.table_loc(inst_id, x)?;
        if i >= store.insts[ti].tables.int[tk].elems.len() {
            return Err(trap());
        }
        let ptr = match store.insts[ti].tables.int[tk].elems[i] {
            Val::Null(_) => return Err(trap()),
            v => v.unwrap_ref()?,
        };
        let ft = store.func_type(ptr)?;
        let types = store.insts[inst_id].module.types();
        check((y as usize) < types.len())?;
        if !ft.same(&types[y as usize]) {
            return Err(trap());
        }
        let r = t.invoke(store, ptr);
        proof {
            let pos = self.parser.pos() + 0nat;
            if r matches Ok(ThreadResult::Host) {
                assert(host_called(tm, pos, ptr, *old(store), store.threads@.last()));
            }
            if r matches Ok(ThreadResult::Continue(_)) {
                assert(wasm_called(tm, pos, ptr, r->Ok_0->Continue_0));
            }
        }
        r
    }

    /// Executes `table.get x` in instance `inst_id`.
    fn table_get(&mut self, store: &Store<'m>, inst_id: usize, x: u32) -> (r: Result<(), Error>)
        requires
            old(self).wf(),
        ensures
            final(self).wf(),
            final(self).frames == old(self).frames,
            final(self).parser == old(self).parser,
            table_effect(Instr::TableGet(x), old(self).values@, *store, *store, inst_id as int, r, final(self).values@),
    {
        let ghost vs = self.values@;
        let i = self.pop_value()?.unwrap_i32()? as usize;
        let (ti, tk) = store.table_loc(inst_id, x)?;
        if i >= store.insts[ti].tables.int[tk].elems.len() {
            return Err(trap());
        }
        self.push_value(store.insts[ti].tables.int[tk].elems[i]);
        Ok(())
    }

    /// Executes `table.set x` in instance `inst_id`.
    fn table_set(&mut self, store: &mut Store<'m>, inst_id: usize, x: u32) -> (r: Result<(), Error>)
        requires
            old(self).wf(),
        ensures
            final(self).wf(),
            final(self).frames == old(self).frames,
            final(self).parser == old(self).parser,
            table_effect(Instr::TableSet(x), old(self).values@, *old(store), *final(store), inst_id as int, r, final(self).values@),
    {
        let ghost vs = self.values@;
        let v = self.pop_value()?;
        let i = self.pop_value()?.unwrap_i32()? as usize;
        assert(self.values@ =~= vs.take(vs.len() - 2));
        let (ti, tk) = store.table_loc(inst_id, x)?;
        if i >= store.insts[ti].tables.int[tk].elems.len() {
            return Err(trap());
        }
        let ghost s0 = *store;
        store.insts[ti].tables.int[tk].elems.set(i, v);
        proof {
            assert forall|j: int| 0 <= j < s0.insts@.len() && j != ti implies store.insts@[j] == s0.insts@[j] by {}
            assert forall|j: int| 0 <= j < s0.insts@[ti as int].tables.int@.len() && j != tk implies
                store.insts@[ti as int].tables.int@[j] == s0.insts@[ti as int].tables.int@[j] by {}
        }
        Ok(())
    }

    /// Executes a parametric, variable, table access or memory access instruction.
    #[verifier::rlimit(40)]
    pub fn step_variable(&mut self, store: &mut Store<'m>, inst_id: usize, instr: crate::syntax::Instr) -> (r:
        Result<(), Error>)
        requires
            old(self).wf(),
            inst_id < old(store).insts@.len(),
        ensures
            final(self).wf(),
            final(store).id == old(store).id,
            final(store).funcs@ == old(store).funcs@,
            final(store).threads@ == old(store).threads@,
            final(store).insts@.len() == old(store).insts@.len(),
            final(self).parser == old(self).parser,
            is_local_instr(instr) ==> local_effect(instr, *old(self), *final(self), r is Ok),
            match load_kind(instr) {
                Some((t, n, sx, m)) => {
                    &&& *final(store) == *old(store)
                    &&& final(self).frames == old(self).frames
                    &&& match old(store).spec_mem_inst(inst_id as int) {
                        Some(i) => load_effect(*old(self), *final(self), old(store).insts@[i].mems.int, t, n, sx, m, r),
                        None => r is Err,
                    }
                },
                None => true,
            },
            match store_kind(instr) {
                Some((t, n, m)) => {
                    &&& final(self).frames == old(self).frames
                    &&& match old(store).spec_mem_inst(inst_id as int) {
                        Some(k) => {
                            &&& store_effect(*old(self), *final(self), old(store).insts@[k].mems.int, final(store).insts@[k].mems.int.data@, t, n, m, r)
                            &&& store_with_memory(*old(store), *final(store), k, final(store).insts@[k].mems.int.data@)
                        },
                        None => r is Err && *final(store) == *old(store),
                    }
                },
                None => true,
            },
            instr matches Instr::GlobalSet(x) ==> {
                &&& final(self).frames == old(self).frames
                &&& old(self).values@.len() == 0 ==> r is Err && *final(store) == *old(store)
                &&& old(self).values@.len() > 0 ==> match old(store).spec_global_loc(inst_id as int, x as int) {
                    Some((i, k)) => {
                        &&& r is Ok
                        &&& final(self).values@ == old(self).values@.drop_last()
                        &&& store_but(*old(store), *final(store), i)
                        &&& with_global(old(store).insts@[i], final(store).insts@[i], k, old(self).values@.last())
                    },
                    None => r is Err && *final(store) == *old(store),
                }
            },
            instr is MemoryGrow ==> {
                &&& final(self).frames == old(self).frames
                &&& !(old(self).values@.len() > 0 && old(self).values@.last() is I32) ==> r is Err
                    && *final(store) == *old(store)
                &&& (old(self).values@.len() > 0 && old(self).values@.last() is I32) ==> match old(
                    store,
                ).spec_mem_inst(inst_id as int) {
                    Some(k) => {
                        let mem = old(store).insts@[k].mems.int;
                        let n = old(self).values@.last()->I32_0;
                        let (res, size) = match spec_grow(mem.size, mem.max, n) {
                            Some(s) => (mem.size, s),
                            None => (u32::MAX, mem.size),
                        };
                        &&& r is Ok
                        &&& final(self).values@ == old(self).values@.drop_last().push(Val::I32(res))
                        &&& store_but(*old(store), *final(store), k)
                        &&& with_memory(old(store).insts@[k], final(store).insts@[k], mem.data@, size)
                    },
                    None => r is Err && *final(store) == *old(store),
                }
            },
            instr matches Instr::GlobalGet(x) ==> {
                &&& *final(store) == *old(store)
                &&& final(self).frames == old(self).frames
                &&& match old(store).spec_global_loc(inst_id as int, x as int) {
                    Some((i, k)) => r is Ok && final(self).values@ == old(self).values@.push(
                        old(store).insts@[i].globals.int@[k].value,
                    ),
                    None => r is Err,
                }
            },
            instr is MemorySize ==> {
                &&& *final(store) == *old(store)
                &&& final(self).frames == old(self).frames
                &&& match old(store).spec_mem_inst(inst_id as int) {
                    Some(i) => r is Ok && final(self).values@ == old(self).values@.push(
                        Val::I32(old(store).insts@[i].mems.int.size),
                    ),
                    None => r is Err,
                }
            },
            (instr is TableGet || instr is TableSet) ==> {
                &&& final(self).frames == old(self).frames
                &&& table_effect(instr, old(self).values@, *old(store), *final(store), inst_id as int, r, final(self).values@)
            },
    {
        match instr {
            crate::syntax::Instr::Drop => {
                self.pop_value()?;
            },
            crate::syntax::Instr::Select(_) => {
                let ghost vs = self.values@;
                let c = self.pop_value()?.unwrap_i32()?;
                let v2 = self.pop_value()?;
                let v1 = self.pop_value()?;
                proof {
                    assert(self.values@ =~= vs.take(vs.len() - 3));
                }
                self.push_value(if c == 0 {
                    v2
                } else {
                    v1
                });
            },
            crate::syntax::Instr::LocalGet(x) => {
                check(self.frames.len() > 0)?;
                let k = self.frames.len() - 1;
                check((x as usize) < self.frames[k].locals.len())?;
                let v = self.frames[k].locals[x as usize];
                self.push_value(v);
            },
            crate::syntax::Instr::LocalSet(x) | crate::syntax::Instr::LocalTee(x) => {
                let v = match instr {
                    crate::syntax::Instr::LocalSet(_) => self.pop_value()?,
                    _ => self.peek_value()?,
                };
                check(self.frames.len() > 0)?;
                let k = self.frames.len() - 1;
                check((x as usize) < self.frames[k].locals.len())?;
                let ghost before = self.frames@;
                self.frames[k].locals.set(x as usize, v);
                proof {
                    assert forall|i: int| 0 <= i < self.frames@.len() implies (
                    #[trigger] self.frames@[i]).ret == before[i].ret by {}
                    assert(with_locals(before[k as int], self.frames@[k as int], before[k as int].locals@.update(x as int, v)));
                    assert forall|j: int| 0 <= j < k implies self.frames@[j] == before[j] by {}
                }
            },
            crate::syntax::Instr::GlobalGet(x) => {
                let (i, k) = store.global_loc(inst_id, x)?;
                self.push_value(store.insts[i].globals.int[k].value);
            },
            crate::syntax::Instr::GlobalSet(x) => {
                let v = self.pop_value()?;
                let (i, k) = store.global_loc(inst_id, x)?;
                store.insts[i].globals.int[k].value = v;
            },
            crate::syntax::Instr::TableGet(x) => self.table_get(store, inst_id, x)?,
            crate::syntax::Instr::TableSet(x) => self.table_set(store, inst_id, x)?,
            crate::syntax::Instr::ILoad(n, m) => {
                let mi = store.mem_loc(inst_id, 0)?;
                self.load(&store.insts[mi].mems.int, NumType::i(n), n.bits(), Sx::U, m)?;
            },
            crate::syntax::Instr::FLoad(n, m) => {
                let mi = store.mem_loc(inst_id, 0)?;
                self.load(&store.insts[mi].mems.int, NumType::f(n), n.bits(), Sx::U, m)?;
            },
            crate::syntax::Instr::ILoad_(b, sx, m) => {
                let mi = store.mem_loc(inst_id, 0)?;
                self.load(&store.insts[mi].mems.int, NumType::i(b.nx()), b.bits(), sx, m)?;
            },
            crate::syntax::Instr::IStore(n, m) => {
                let mi = store.mem_loc(inst_id, 0)?;
                self.store(&mut store.insts[mi].mems.int, NumType::i(n), n.bits(), m)?;
            },
            crate::syntax::Instr::FStore(n, m) => {
                let mi = store.mem_loc(inst_id, 0)?;
                self.store(&mut store.insts[mi].mems.int, NumType::f(n), n.bits(), m)?;
            },
            crate::syntax::Instr::IStore_(b, m) => {
                let mi = store.mem_loc(inst_id, 0)?;
                self.store(&mut store.insts[mi].mems.int, NumType::i(b.nx()), b.bits(), m)?;
            },
            crate::syntax::Instr::MemorySize => {
                let mi = store.mem_loc(inst_id, 0)?;
                self.push_value(Val::I32(store.insts[mi].mems.int.size));
            },
            crate::syntax::Instr::MemoryGrow => {
                let n = self.pop_value()?.unwrap_i32()?;
                let mi = store.mem_loc(inst_id, 0)?;
                let r = grow_memory(&mut store.insts[mi].mems.int, n);
                self.push_value(Val::I32(r));
            },
            _ => return Err(invalid()),
        }
        Ok(())
    }

    /// Executes a numeric or reference instruction.
    #[verifier::rlimit(40)]
    pub fn step_numeric<F: Float>(&mut self, store: &Store<'m>, inst_id: usize, instr: crate::syntax::Instr, float: &F) -> (r:
        Result<(), Error>)
        requires
            old(self).wf(),
        ensures
            final(self).wf(),
            final(self).frames == old(self).frames,
            final(self).parser == old(self).parser,
            is_pure_instr(instr) ==> {
                &&& r is Ok <==> spec_pure_instr(instr, old(self).values@) is Some
                &&& r is Ok ==> final(self).values@ == spec_pure_instr(instr, old(self).values@)->Some_0
                &&& pure_instr_traps(instr, old(self).values@) ==> r == Err::<(), Error>(Error::Trap)
            },
            instr matches Instr::RefFunc(x) ==> (inst_id < store.insts@.len() ==> match store.insts@[inst_id as int].funcs.spec_ptr(
                inst_id as int,
                x as int,
            ) {
                Some(p) => r is Ok && final(self).values@ == old(self).values@.push(Val::Ref(p)),
                None => r is Err,
            }),
    {
        match instr {
            crate::syntax::Instr::I32Const(c) => self.push_value(Val::I32(c)),
            crate::syntax::Instr::I64Const(c) => self.push_value(Val::I64(c)),
            crate::syntax::Instr::F32Const(c) => self.push_value(Val::F32(c)),
            crate::syntax::Instr::F64Const(c) => self.push_value(Val::F64(c)),
            crate::syntax::Instr::ITestOp(n, op) => self.itestop(n, op)?,
            crate::syntax::Instr::IRelOp(n, op) => self.irelop(n, op)?,
            crate::syntax::Instr::FRelOp(n, op) => self.frelop(n, op, float)?,
            crate::syntax::Instr::IUnOp(n, op) => self.iunop(n, op)?,
            crate::syntax::Instr::FUnOp(n, op) => self.funop(n, op, float)?,
            crate::syntax::Instr::IBinOp(n, op) => self.ibinop(n, op)?,
            crate::syntax::Instr::FBinOp(n, op) => self.fbinop(n, op, float)?,
            crate::syntax::Instr::CvtOp(op) => self.cvtop(op, float)?,
            crate::syntax::Instr::IExtend(b) => self.extend(b)?,
            crate::syntax::Instr::RefNull(t) => self.push_value(Val::Null(t)),
            crate::syntax::Instr::RefIsNull => {
                let v = self.pop_value()?;
                let c = match v {
                    Val::Null(_) => 1,
                    _ => 0,
                };
                self.push_value(Val::I32(c));
            },
            crate::syntax::Instr::RefFunc(x) => {
                let ptr = store.func_ptr(inst_id, x)?;
                self.push_value(Val::Ref(ptr));
            },
            _ => return Err(invalid()),
        }
        Ok(())
    }
}

/// Copies `n` bytes of the memory from `s` to `d` (the ranges may overlap), or traps.
pub fn memory_copy(mem: &mut Memory, d: usize, s: usize, n: usize) -> (r: Result<(), Error>)
    ensures
        final(mem).size == old(mem).size,
        final(mem).max == old(mem).max,
        if s + n <= old(mem).spec_len() && d + n <= old(mem).spec_len() {
            r is Ok && final(mem).data@ == old(mem).data@.take(d as int) + old(mem).data@.subrange(
                s as int,
                s + n,
            ) + old(mem).data@.skip(d + n)
        } else {
            r == Err::<(), Error>(Error::Trap) && final(mem).data@ == old(mem).data@
        },
{
    let len = mem.len() as usize;
    if s > len || n > len - s || d > len || n > len - d {
        return Err(trap());
    }
    let ghost d0 = mem.data@;
    if d <= s {
        let mut k: usize = 0;
        while k < n
            invariant
                d <= s,
                k <= n,
                s + n <= len,
                d + n <= len,
                len <= d0.len(),
                mem.size == old(mem).size,
                mem.max == old(mem).max,
                mem.data@ == d0.take(d as int) + d0.subrange(s as int, s + k) + d0.skip(d + k),
            decreases n - k,
        {
            let b = mem.data[s + k];
            assert(b == d0[s + k]);
            mem.data.set(d + k, b);
            k = k + 1;
            proof {
                assert(mem.data@ =~= d0.take(d as int) + d0.subrange(s as int, s + k) + d0.skip(
                    d + k,
                ));
            }
        }
    } else {
        let mut k: usize = n;
        proof {
            assert(d0 =~= d0.take(d + n) + d0.subrange(s + n, s + n) + d0.skip(d + n));
        }
        while k > 0
            invariant
                s < d,
                k <= n,
                s + n <= len,
                d + n <= len,
                len <= d0.len(),
                mem.size == old(mem).size,
                mem.max == old(mem).max,
                mem.data@ == d0.take(d + k) + d0.subrange(s + k, s + n) + d0.skip(d + n),
            decreases k,
        {
            let b = mem.data[s + k - 1];
            assert(b == d0[s + k - 1]);
            mem.data.set(d + k - 1, b);
            k = k - 1;
            proof {
                assert(mem.data@ =~= d0.take(d + k) + d0.subrange(s + k, s + n) + d0.skip(d + n));
            }
        }
        proof {
            assert(d0.take(d + 0) =~= d0.take(d as int));
        }
    }
    Ok(())
}

/// Fills `n` bytes of the memory from `d` with `val`, or traps.
pub fn memory_fill(mem: &mut Memory, d: usize, val: u8, n: usize) -> (r: Result<(), Error>)
    ensures
        final(mem).size == old(mem).size,
        final(mem).max == old(mem).max,
        if d + n <= old(mem).spec_len() {
            r is Ok && final(mem).data@ == old(mem).data@.take(d as int) + Seq::new(
                n as nat,
                |i: int| val,
            ) + old(mem).data@.skip(d + n)
        } else {
            r == Err::<(), Error>(Error::Trap) && final(mem).data@ == old(mem).data@
        },
{
    let len = mem.len() as usize;
    if d > len || n > len - d {
        return Err(trap());
    }
    let ghost d0 = mem.data@;
    let mut k: usize = 0;
    while k < n
        invariant
            k <= n,
            d + n <= len,
            len <= d0.len(),
            mem.size == old(mem).size,
            mem.max == old(mem).max,
            mem.data@ == d0.take(d as int) + Seq::new(k as nat, |i: int| val) + d0.skip(d + k),
        decreases n - k,
    {
        mem.data.set(d + k, val);
        k = k + 1;
        proof {
            assert(mem.data@ =~= d0.take(d as int) + Seq::new(k as nat, |i: int| val) + d0.skip(
                d + k,
            ));
        }
    }
    Ok(())
}

/// Fills `n` elements of a table from `i` with `val`, or traps.
pub fn table_fill(table: &mut Table, i: usize, val: Val, n: usize) -> (r: Result<(), Error>)
    ensures
        final(table).max == old(table).max,
        if i + n <= old(table).elems@.len() {
            r is Ok && final(table).elems@ == old(table).elems@.take(i as int) + Seq::new(
                n as nat,
                |j: int| val,
            ) + old(table).elems@.skip(i + n)
        } else {
            r == Err::<(), Error>(Error::Trap) && final(table).elems@ == old(table).elems@
        },
{
    let len = table.elems.len();
    if i > len || n > len - i {
        return Err(trap());
    }
    let ghost e0 = table.elems@;
    let mut k: usize = 0;
    while k < n
        invariant
            k <= n,
            i + n <= len,
            len == e0.len(),
            table.max == old(table).max,
            table.elems@ == e0.take(i as int) + Seq::new(k as nat, |j: int| val) + e0.skip(i + k),
        decreases n - k,
    {
        table.elems.set(i + k, val);
        k = k + 1;
        proof {
            assert(table.elems@ =~= e0.take(i as int) + Seq::new(k as nat, |j: int| val) + e0.skip(
                i + k,
            ));
        }
    }
    Ok(())
}

impl<'m> Thread<'m> {
    /// Pops three `i32` values: the last, the middle and the first (in this order).
    pub fn pop_3_i32(&mut self) -> (r: Result<(usize, usize, usize), Error>)
        requires
            old(self).wf(),
        ensures
            final(self).wf(),
            final(self).frames == old(self).frames,
            final(self).parser == old(self).parser,
            match spec_top3(old(self).values@) {
                Some((a, b, c)) => r == Ok::<(usize, usize, usize), Error>(
                    (a as usize, b as usize, c as usize),
                ) && final(self).values@ == old(self).values@.take(old(self).values@.len() - 3),
                None => r is Err,
            },
    {
        let c = self.pop_value()?.unwrap_i32()? as usize;
        let b = self.pop_value()?.unwrap_i32()? as usize;
        let a = self.pop_value()?.unwrap_i32()? as usize;
        Ok((a, b, c))
    }

    /// The elements of segment `y` of instance `inst_id` (none if dropped).
    pub fn elems_of(store: &Store<'m>, inst_id: usize, y: u32) -> (r: Result<Vec<Val>, Error>)
        requires
            inst_id < store.insts@.len(),
        ensures
            y >= store.insts@[inst_id as int].elems@.len() ==> r == Err::<Vec<Val>, Error>(
                Error::Invalid,
            ),
            (y < store.insts@[inst_id as int].elems@.len() && store.insts@[inst_id as int].elems@[y as int])
                ==> (r matches Ok(v) && v@.len() == 0),
    {
        check((y as usize) < store.insts[inst_id].elems.len())?;
        if store.insts[inst_id].elems[y as usize] {
            return Ok(Vec::new());
        }
        let mut parser = store.insts[inst_id].module.elem(y)?;
        let mut compute = ComputeElem {
            store,
            inst_id,
            mode: ComputedElemMode::Passive,
            init: Vec::new(),
            parts: Ghost(Seq::empty()),
        };
        parser.parse_elem(&mut compute)?;
        Ok(compute.init)
    }

    /// The bytes of data segment `x` of instance `inst_id` (none if dropped).
    pub fn data_of(store: &Store<'m>, inst_id: usize, x: u32) -> (r: Result<Option<&'m [u8]>, Error>)
        requires
            inst_id < store.insts@.len(),
        ensures
            x >= store.insts@[inst_id as int].datas@.len() ==> r == Err::<Option<&'m [u8]>, Error>(
                Error::Invalid,
            ),
            (x < store.insts@[inst_id as int].datas@.len() && store.insts@[inst_id as int].datas@[x as int])
                ==> r == Ok::<Option<&'m [u8]>, Error>(None),
    {
        check((x as usize) < store.insts[inst_id].datas.len())?;
        if store.insts[inst_id].datas[x as usize] {
            return Ok(None);
        }
        let mut parser = store.insts[inst_id].module.data(x)?;
        let mut compute = ComputeData {
            store,
            inst_id,
            mode: ComputedDataMode::Passive,
            init: None,
            parts: Ghost(Seq::empty()),
        };
        parser.parse_data(&mut compute)?;
        Ok(compute.init)
    }

    /// Executes `table.size x` in instance `inst_id`.
    fn table_size(&mut self, store: &Store<'m>, inst_id: usize, x: u32) -> (r: Result<(), Error>)
        requires
            old(self).wf(),
        ensures
            final(self).wf(),
            final(self).frames == old(self).frames,
            final(self).parser == old(self).parser,
            table_effect(Instr::TableSize(x), old(self).values@, *store, *store, inst_id as int, r, final(self).values@),
    {
        let (ti, tk) = store.table_loc(inst_id, x)?;
        check(store.insts[ti].tables.int[tk].elems.len() <= u32::MAX as usize)?;
        let size = store.insts[ti].tables.int[tk].size();
        self.push_value(Val::I32(size));
        Ok(())
    }

    /// Executes `table.grow x` in instance `inst_id`.
    fn table_grow(&mut self, store: &mut Store<'m>, inst_id: usize, x: u32) -> (r: Result<(), Error>)
        requires
            old(self).wf(),
        ensures
            final(self).wf(),
            final(self).frames == old(self).frames,
            final(self).parser == old(self).parser,
            table_effect(Instr::TableGrow(x), old(self).values@, *old(store), *final(store), inst_id as int, r, final(self).values@),
    {
        let ghost vs = self.values@;
        let n = self.pop_value()?.unwrap_i32()?;
        let val = self.pop_value()?;
        assert(self.values@ =~= vs.take(vs.len() - 2));
        let (ti, tk) = store.table_loc(inst_id, x)?;
        check(store.insts[ti].tables.int[tk].elems.len() <= u32::MAX as usize)?;
        let ghost s0 = *store;
        let r = grow_table(&mut store.insts[ti].tables.int[tk], n, val);
        proof {
            assert forall|j: int| 0 <= j < s0.insts@.len() && j != ti implies store.insts@[j] == s0.insts@[j] by {}
            assert forall|j: int| 0 <= j < s0.insts@[ti as int].tables.int@.len() && j != tk implies
                store.insts@[ti as int].tables.int@[j] == s0.insts@[ti as int].tables.int@[j] by {}
        }
        self.push_value(Val::I32(r));
        Ok(())
    }

    /// Executes `table.fill x` in instance `inst_id`.
    fn table_fill(&mut self, store: &mut Store<'m>, inst_id: usize, x: u32) -> (r: Result<(), Error>)
        requires
            old(self).wf(),
        ensures
            final(self).wf(),
            final(self).frames == old(self).frames,
            final(self).parser == old(self).parser,
            table_effect(Instr::TableFill(x), old(self).values@, *old(store), *final(store), inst_id as int, r, final(self).values@),
    {
        let ghost vs = self.values@;
        let n = self.pop_value()?.unwrap_i32()? as usize;
        let val = self.pop_value()?;
        let i = self.pop_value()?.unwrap_i32()? as usize;
        assert(self.values@ =~= vs.take(vs.len() - 3));
        let (ti, tk) = store.table_loc(inst_id, x)?;
        let ghost s0 = *store;
        let r = table_fill(&mut store.insts[ti].tables.int[tk], i, val, n);
        proof {
            assert forall|j: int| 0 <= j < s0.insts@.len() && j != ti implies store.insts@[j] == s0.insts@[j] by {}
            assert forall|j: int| 0 <= j < s0.insts@[ti as int].tables.int@.len() && j != tk implies
                store.insts@[ti as int].tables.int@[j] == s0.insts@[ti as int].tables.int@[j] by {}
        }
        r
    }

    /// Executes a bulk memory or table instruction.
    #[verifier::rlimit(40)]
    pub fn step_bulk(&mut self, store: &mut Store<'m>, inst_id: usize, instr: crate::syntax::Instr) -> (r:
        Result<(), Error>)
        requires
            old(self).wf(),
            inst_id < old(store).insts@.len(),
        ensures
            final(self).wf(),
            final(store).id == old(store).id,
            final(store).funcs@ == old(store).funcs@,
            final(store).threads@ == old(store).threads@,
            final(store).insts@.len() == old(store).insts@.len(),
            final(self).frames == old(self).frames,
            final(self).parser == old(self).parser,
            (instr is MemoryCopy || instr is MemoryFill) ==> match (
                spec_top3(old(self).values@),
                old(store).spec_mem_inst(inst_id as int),
            ) {
                (Some((a, b, c)), Some(k)) => match spec_bulk_memory(
                    instr,
                    old(store).insts@[k].mems.int,
                    a as int,
                    b as int,
                    c as int,
                ) {
                    Some(data) => {
                        &&& r is Ok
                        &&& final(self).values@ == old(self).values@.take(old(self).values@.len() - 3)
                        &&& store_with_memory(*old(store), *final(store), k, data)
                    },
                    None => r == Err::<(), Error>(Error::Trap) && store_with_memory(
                        *old(store),
                        *final(store),
                        k,
                        old(store).insts@[k].mems.int.data@,
                    ),
                },
                _ => r is Err && *final(store) == *old(store),
            },
            (instr is ElemDrop || instr is DataDrop) ==> final(self).values == old(self).values
                && drop_effect(instr, *old(store), *final(store), inst_id as int, r),
            (instr is TableSize || instr is TableGrow || instr is TableFill) ==> table_effect(
                instr,
                old(self).values@,
                *old(store),
                *final(store),
                inst_id as int,
                r,
                final(self).values@,
            ),
    {
        match instr {
            crate::syntax::Instr::MemoryInit(x) => {
                let (d, s, n) = self.pop_3_i32()?;
                let data = Self::data_of(store, inst_id, x)?;
                let mi = store.mem_loc(inst_id, 0)?;
                match data {
                    Some(bytes) => memory_init(d, s, n, &mut store.insts[mi].mems.int, bytes)?,
                    None => {
                        let empty: Vec<u8> = Vec::new();
                        memory_init(d, s, n, &mut store.insts[mi].mems.int, empty.as_slice())?
                    },
                }
            },
            crate::syntax::Instr::DataDrop(x) => {
                check((x as usize) < store.insts[inst_id].datas.len())?;
                let ghost s0 = *store;
                store.insts[inst_id].datas.set(x as usize, true);
                proof {
                    assert forall|j: int| 0 <= j < s0.insts@.len() && j != inst_id implies store.insts@[j] == s0.insts@[j] by {}
                }
            },
            crate::syntax::Instr::MemoryCopy => {
                let (d, s, n) = self.pop_3_i32()?;
                let mi = store.mem_loc(inst_id, 0)?;
                memory_copy(&mut store.insts[mi].mems.int, d, s, n)?;
            },
            crate::syntax::Instr::MemoryFill => {
                let (d, val, n) = self.pop_3_i32()?;
                let mi = store.mem_loc(inst_id, 0)?;
                memory_fill(&mut store.insts[mi].mems.int, d, (val % 256) as u8, n)?;
            },
            crate::syntax::Instr::TableInit(x, y) => {
                let (d, s, n) = self.pop_3_i32()?;
                let elems = Self::elems_of(store, inst_id, y)?;
                let (ti, tk) = store.table_loc(inst_id, x)?;
                table_init(d, s, n, &mut store.insts[ti].tables.int[tk], elems.as_slice())?;
            },
            crate::syntax::Instr::ElemDrop(x) => {
                check((x as usize) < store.insts[inst_id].elems.len())?;
                let ghost s0 = *store;
                store.insts[inst_id].elems.set(x as usize, true);
                proof {
                    assert forall|j: int| 0 <= j < s0.insts@.len() && j != inst_id implies store.insts@[j] == s0.insts@[j] by {}
                }
            },
            crate::syntax::Instr::TableCopy(x, y) => {
                let (d, s, n) = self.pop_3_i32()?;
                let (yi, yk) = store.table_loc(inst_id, y)?;
                let ylen = store.insts[yi].tables.int[yk].elems.len();
                if s > ylen || n > ylen - s {
                    return Err(trap());
                }
                let mut ys: Vec<Val> = Vec::new();
                let mut k: usize = 0;
                while k < n
                    invariant
                        k <= n,
                        s + n <= ylen,
                        yi < store.insts@.len(),
                        yk < store.insts@[yi as int].tables.int@.len(),
                        ylen == store.insts@[yi as int].tables.int@[yk as int].elems@.len(),
                    decreases n - k,
                {
                    ys.push(store.insts[yi].tables.int[yk].elems[s + k]);
                    k = k + 1;
                }
                let (xi, xk) = store.table_loc(inst_id, x)?;
                table_init(d, 0, n, &mut store.insts[xi].tables.int[xk], ys.as_slice())?;
            },
            crate::syntax::Instr::TableGrow(x) => self.table_grow(store, inst_id, x)?,
            crate::syntax::Instr::TableSize(x) => self.table_size(store, inst_id, x)?,
            crate::syntax::Instr::TableFill(x) => self.table_fill(store, inst_id, x)?,
            _ => return Err(invalid()),
        }
        Ok(())
    }
}

/// Whether instance `inst_id` of `s` has the size and maximum of the memory that `module`
/// defines, if it defines one.
pub open spec fn mem_shape<'m>(s: Store<'m>, inst_id: int, module: crate::module::Module<'m>, buf: int) -> bool {
    module_memory(module.spec_sections()) matches Some(l) ==> s.insts@[inst_id].mems.int.size == l.min
        && s.insts@[inst_id].mems.int.max == l.max && s.insts@[inst_id].mems.int.data@.len() == mem_len(l, buf)
}

/// Whether the memory that `module` defines, if any, is all zero in instance `inst_id` of `s`.
pub open spec fn mem_zero<'m>(s: Store<'m>, inst_id: int, module: crate::module::Module<'m>) -> bool {
    module_memory(module.spec_sections()) is Some ==> forall|j: int|
        0 <= j < s.insts@[inst_id].mems.int.data@.len() ==> #[trigger] s.insts@[inst_id].mems.int.data@[j] == 0
}

/// The length of a memory of limits `l` on a buffer of `buf` bytes: the buffer, cut to the
/// maximum number of pages if it is larger.
pub open spec fn mem_len(l: Limits, buf: int) -> int {
    if l.max < 0x10000 && l.max * PAGE_SIZE < buf {
        l.max * PAGE_SIZE
    } else {
        buf
    }
}

/// The limits of the memory that the sections `s` of a module define, if they define exactly one.
pub open spec fn module_memory(s: Seq<u8>) -> Option<Limits> {
    match crate::module::spec_find_section(s, crate::syntax::SectionId::Memory) {
        Ok(Some(c)) => match crate::parser::spec_u32(c) {
            Ok((n, k)) => if n == 1 {
                match crate::parser::spec_limits(c.skip(k as int), crate::syntax::MEM_MAX) {
                    Ok((l, _)) => Some(l),
                    Err(_) => None,
                }
            } else {
                None
            },
            Err(_) => None,
        },
        _ => None,
    }
}

impl<'m> Store<'m> {
    /// The external type that an import expects.
    pub fn import_type(module: &crate::module::Module<'m>, import: &crate::syntax::Import<'m>) -> (r:
        Result<crate::syntax::ExternType, Error>)
        ensures
            match import.desc {
                crate::syntax::ImportDesc::Func(x) => match r {
                    Ok(crate::syntax::ExternType::Func(t)) => x < module.spec_types().len() && t@
                        == module.spec_types()[x as int]@,
                    Ok(_) => false,
                    Err(e) => x >= module.spec_types().len() && e == Error::Invalid,
                },
                crate::syntax::ImportDesc::Table(t) => r == Ok::<crate::syntax::ExternType, Error>(
                    crate::syntax::ExternType::Table(t),
                ),
                crate::syntax::ImportDesc::Mem(m) => r == Ok::<crate::syntax::ExternType, Error>(
                    crate::syntax::ExternType::Mem(m),
                ),
                crate::syntax::ImportDesc::Global(g) => r == Ok::<crate::syntax::ExternType, Error>(
                    crate::syntax::ExternType::Global(g),
                ),
            },
    {
        match import.desc {
            crate::syntax::ImportDesc::Func(x) => {
                let types = module.types();
                check((x as usize) < types.len())?;
                Ok(crate::syntax::ExternType::Func(types[x as usize].copy()))
            },
            crate::syntax::ImportDesc::Table(t) => Ok(crate::syntax::ExternType::Table(t)),
            crate::syntax::ImportDesc::Mem(m) => Ok(crate::syntax::ExternType::Mem(m)),
            crate::syntax::ImportDesc::Global(g) => Ok(crate::syntax::ExternType::Global(g)),
        }
    }

    /// The host pointer to host function `idx`.
    fn host_ptr(idx: usize) -> (r: Result<Ptr, Error>)
        ensures
            r is Ok <==> idx <= INDEX_MASK,
            r matches Ok(p) ==> p.spec_instance() == Side::Host && p.spec_index() == idx,
    {
        check(idx <= INDEX_MASK as usize)?;
        proof {
            lemma_ptr_round_trip(Side::Host, idx as u32);
        }
        Ok(Ptr::new(Side::Host, idx as u32))
    }

    /// Links an unresolved imported function to a fake host function of its type: one that was
    /// already made for the same type, or a new one.
    #[verifier::rlimit(100)]
    #[verifier::spinoff_prover]
    fn resolve_fake(
        &mut self,
        host_name: HostName<'m>,
        funcs_len: usize,
        import: &crate::syntax::Import<'m>,
        imp_type: &crate::syntax::ExternType,
    ) -> (r: Result<Ptr, Error>)
        requires
            fake_applies(*old(self), *import, *imp_type),
            funcs_len == old(self).linked_len(),
            funcs_len <= old(self).funcs@.len(),
            host_name.module == import.module && host_name.name == import.name,
        ensures
            fake_resolved(*old(self), *final(self), *import, *imp_type, r),
            final(self).id == old(self).id,
            final(self).insts@ == old(self).insts@,
            final(self).threads@ == old(self).threads@,
            final(self).func_default == old(self).func_default,
            final(self).funcs@.len() >= old(self).funcs@.len(),
            final(self).funcs@.take(old(self).funcs@.len() as int) == old(self).funcs@,
    {
        let t = match imp_type {
            crate::syntax::ExternType::Func(t) => t.copy(),
            _ => return Err(invalid()),
        };
        let mut idx = self.funcs.len();
        let mut j = funcs_len;
        while j < self.funcs.len()
            invariant_except_break
                j < self.funcs@.len() ==> true,
            invariant
                funcs_len <= j <= self.funcs@.len(),
                idx == self.funcs@.len(),
                self.funcs@ == old(self).funcs@,
                funcs_len == old(self).linked_len(),
                forall|k: int| funcs_len <= k < j ==> self.funcs@[k].1@ != t@,
            ensures
                funcs_len <= j <= self.funcs@.len(),
                idx == self.funcs@.len(),
                self.funcs@ == old(self).funcs@,
                forall|k: int| funcs_len <= k < j ==> self.funcs@[k].1@ != t@,
                j < self.funcs@.len() ==> self.funcs@[j as int].1@ == t@,
            decreases self.funcs@.len() - j,
        {
            if self.funcs[j].1.same(&t) {
                break;
            }
            j = j + 1;
        }
        proof {
            if exists|k: int| funcs_len <= k < self.funcs@.len() && #[trigger] self.funcs@[k].1@ == t@ {
                let k = choose|k: int| funcs_len <= k < self.funcs@.len() && #[trigger] self.funcs@[k].1@ == t@;
                assert(k >= j);
                assert(j < self.funcs@.len());
            }
        }
        if j < self.funcs.len() {
            idx = j;
        }
        if idx == self.funcs.len() {
            let ghost before = self.funcs@;
            self.funcs.push((host_name, t.copy()));
            assert(self.funcs@.take(before.len() as int) =~= before);
        }
        proof {
            assert(self.funcs@.take(old(self).funcs@.len() as int) =~= old(self).funcs@);
        }
        let ptr = Self::host_ptr(idx)?;
        if crate::syntax::ExternType::Func(t).matches(imp_type) {
            Ok(ptr)
        } else {
            Err(crate::error::not_found())
        }
    }

    /// Finds the item that the first instance named like the module of `import` exports under its
    /// name. Its type must match `imp_type`.
    #[verifier::rlimit(100)]
    #[verifier::spinoff_prover]
    fn resolve_export(&self, import: &crate::syntax::Import<'m>, imp_type: &crate::syntax::ExternType) -> (r:
        Result<Ptr, Error>)
        ensures
            no_instance_export(*self, *import) ==> r == Err::<Ptr, Error>(Error::NotFound),
            r matches Ok(p) ==> export_resolved(*self, *import, *imp_type, p),
            forall|p: Ptr| #[trigger] export_func_matches(*self, *import, *imp_type, p) ==> r == Ok::<
                Ptr,
                Error,
            >(p),
            forall|p: Ptr| #[trigger] export_global_matches(*self, *import, *imp_type, p) ==> r == Ok::<
                Ptr,
                Error,
            >(p),
            forall|p: Ptr| #[trigger] export_mem_matches(*self, *import, *imp_type, p) ==> r == Ok::<
                Ptr,
                Error,
            >(p),
            forall|p: Ptr| #[trigger] export_table_matches(*self, *import, *imp_type, p) ==> r == Ok::<
                Ptr,
                Error,
            >(p),
    {
        let mut found: Option<(Ptr, crate::syntax::ExternType)> = None;
        let inst_id = self.resolve_inst(import.module)?;
        match self.insts[inst_id].module.export(import.name)? {
            Some(crate::syntax::ExportDesc::Func(x)) => {
                let ptr = self.func_ptr(inst_id, x)?;
                found = Some((ptr, crate::syntax::ExternType::Func(self.func_type(ptr)?)));
            },
            Some(crate::syntax::ExportDesc::Table(x)) => {
                let ptr = self.insts[inst_id].tables.ptr(inst_id, x)?;
                let (ti, tk) = self.table_loc(inst_id, x)?;
                let mut t = self.insts[ti].module.table_type(ptr.index())?;
                check(self.insts[ti].tables.int[tk].elems.len() <= u32::MAX as usize)?;
                t.limits.min = self.insts[ti].tables.int[tk].size();
                found = Some((ptr, crate::syntax::ExternType::Table(t)));
            },
            Some(crate::syntax::ExportDesc::Mem(x)) => {
                let ptr = self.insts[inst_id].mems.ptr(inst_id, x)?;
                let mi = self.mem_loc(inst_id, x)?;
                let mut t = self.insts[mi].module.mem_type(ptr.index())?;
                t.min = self.insts[mi].mems.int.size;
                found = Some((ptr, crate::syntax::ExternType::Mem(t)));
            },
            Some(crate::syntax::ExportDesc::Global(x)) => {
                let ptr = self.insts[inst_id].globals.ptr(inst_id, x)?;
                let (gi, _) = self.global_loc(inst_id, x)?;
                let t = self.insts[gi].module.global_type(ptr.index())?;
                found = Some((ptr, crate::syntax::ExternType::Global(t)));
            },
            None => {},
        }
        match found {
            Some((ptr, ext)) => if ext.matches(imp_type) {
                Ok(ptr)
            } else {
                Err(crate::error::not_found())
            },
            None => Err(crate::error::not_found()),
        }
    }

    /// Finds what an import refers to: a linked host function, a fake host function, or an export
    /// of the instance named like the import's module. Its type must match `imp_type`.
    #[verifier::rlimit(100)]
    #[verifier::spinoff_prover]
    pub fn resolve(&mut self, import: &crate::syntax::Import<'m>, imp_type: &crate::syntax::ExternType) -> (r:
        Result<Ptr, Error>)
        ensures
            final(self).id == old(self).id,
            final(self).insts@ == old(self).insts@,
            final(self).threads@ == old(self).threads@,
            final(self).func_default == old(self).func_default,
            final(self).funcs@.len() >= old(self).funcs@.len(),
            final(self).funcs@.take(old(self).funcs@.len() as int) == old(self).funcs@,
            forall|i: int|
                0 <= i < old(self).linked_len() <= old(self).funcs@.len() && #[trigger] named(
                    old(self).funcs@[i].0,
                    *import,
                ) && (forall|j: int| 0 <= j < i ==> !named(old(self).funcs@[j].0, *import)) ==> {
                    &&& final(self).funcs@ == old(self).funcs@
                    &&& i <= INDEX_MASK && crate::syntax::ExternType::Func(
                        old(self).funcs@[i].1,
                    ).spec_matches(imp_type) ==> (r matches Ok(p) && p.spec_instance() == Side::Host
                        && p.spec_index() == i)
                    &&& !(i <= INDEX_MASK && crate::syntax::ExternType::Func(
                        old(self).funcs@[i].1,
                    ).spec_matches(imp_type)) ==> r is Err
                    &&& (i <= INDEX_MASK && !crate::syntax::ExternType::Func(
                        old(self).funcs@[i].1,
                    ).spec_matches(imp_type)) ==> r == Err::<Ptr, Error>(Error::NotFound)
                },
            no_linked(*old(self), *import) && fake_applies(*old(self), *import, *imp_type) ==> fake_resolved(
                *old(self),
                *final(self),
                *import,
                *imp_type,
                r,
            ),
            no_linked(*old(self), *import) && !fake_applies(*old(self), *import, *imp_type) ==> {
                &&& final(self).funcs == old(self).funcs
                &&& no_instance_export(*old(self), *import) ==> r == Err::<Ptr, Error>(Error::NotFound)
                &&& r matches Ok(p) ==> export_resolved(*old(self), *import, *imp_type, p)
                &&& forall|p: Ptr| #[trigger] export_func_matches(*old(self), *import, *imp_type, p) ==> r == Ok::<
                    Ptr,
                    Error,
                >(p)
                &&& forall|p: Ptr| #[trigger] export_global_matches(*old(self), *import, *imp_type, p) ==> r == Ok::<
                    Ptr,
                    Error,
                >(p)
                &&& forall|p: Ptr| #[trigger] export_mem_matches(*old(self), *import, *imp_type, p) ==> r == Ok::<
                    Ptr,
                    Error,
                >(p)
                &&& forall|p: Ptr| #[trigger] export_table_matches(*old(self), *import, *imp_type, p) ==> r == Ok::<
                    Ptr,
                    Error,
                >(p)
            },
    {
        let host_name = HostName { module: import.module, name: import.name };
        let funcs_len = match self.func_default {
            Some((_, x)) => x,
            None => self.funcs.len(),
        };
        check(funcs_len <= self.funcs.len())?;
        let mut found: Option<(Ptr, crate::syntax::ExternType)> = None;
        let mut i: usize = 0;
        while i < funcs_len
            invariant_except_break
                found is None,
            invariant
                i <= funcs_len <= self.funcs@.len(),
                funcs_len == old(self).linked_len(),
                self.funcs@ == old(self).funcs@,
                host_name.module == import.module && host_name.name == import.name,
                forall|j: int| 0 <= j < i ==> !named(#[trigger] self.funcs@[j].0, *import),
            ensures
                (found matches Some((p, t)) ==> i < funcs_len && i <= INDEX_MASK && named(self.funcs@[i as int].0, *import)
                    && p.spec_instance() == Side::Host && p.spec_index() == i && t.spec_matches(imp_type)
                    == crate::syntax::ExternType::Func(self.funcs@[i as int].1).spec_matches(imp_type)),
                found is None ==> i == funcs_len,
                forall|j: int| 0 <= j < i ==> !named(#[trigger] self.funcs@[j].0, *import),
                self.funcs@ == old(self).funcs@,
            decreases funcs_len - i,
        {
            let same = self.funcs[i].0.same(&host_name);
            assert(same == named(self.funcs@[i as int].0, *import));
            if same {
                let ptr = Self::host_ptr(i)?;
                found = Some((ptr, crate::syntax::ExternType::Func(self.funcs[i].1.copy())));
                break;
            }
            i = i + 1;
        }
        proof {
            assert forall|k: int|
                0 <= k < old(self).linked_len() <= old(self).funcs@.len() && #[trigger] named(
                    old(self).funcs@[k].0,
                    *import,
                ) && (forall|j: int| 0 <= j < k ==> !named(old(self).funcs@[j].0, *import)) implies k
                == i && found is Some by {
                if k < i {
                    assert(!named(self.funcs@[k].0, *import));
                } else if found is None {
                    assert(i == funcs_len);
                } else if k > i {
                    assert(named(old(self).funcs@[i as int].0, *import));
                }
            }
        }
        if found.is_none() {
            let default_module = match self.func_default {
                Some((m, _)) => crate::valid::bytes_eq(m.as_bytes(), import.module.as_bytes()),
                None => false,
            };
            let fake = match imp_type {
                crate::syntax::ExternType::Func(t) => default_module && t.results.len() == 1
                    && t.results.get(0) == ValType::I32,
                _ => false,
            };
            proof {
                if imp_type is Func {
                    let t = imp_type->Func_0;
                    if t@.results.len() == 1 && t@.results[0] == ValType::I32 {
                        assert(t@.results =~= seq![ValType::I32]);
                    }
                }
                assert(fake == fake_applies(*old(self), *import, *imp_type));
            }
            if fake {
                return self.resolve_fake(host_name, funcs_len, import, imp_type);
            } else {
                return self.resolve_export(import, imp_type);
            }
        }
        match found {
            Some((ptr, ext)) => if ext.matches(imp_type) {
                Ok(ptr)
            } else {
                Err(crate::error::not_found())
            },
            None => Err(crate::error::not_found()),
        }
    }

    /// Initializes memory with the active segments of the data section `p` of instance
    /// `inst_id`, in order, and records the segments as dropped, passive ones excepted.
    #[verifier::rlimit(100)]
    #[verifier::spinoff_prover]
    fn init_datas(&mut self, inst_id: usize, p: crate::parser::Parser<'m>) -> (r: Result<(), Error>)
        requires
            p.wf(),
            inst_id < old(self).insts@.len(),
        ensures
            data_frame(*old(self), *final(self)),
            same_constants(*old(self), *final(self)),
            r is Ok ==> {
                &&& spec_u32(p.rest()) matches Ok((n, k))
                &&& spec_data_segments(*old(self), inst_id as int, p.rest().skip(k as int), n as nat)
                    matches Some(segs)
                &&& (data_in_memory_zero(segs) && old(self).spec_mem_inst(inst_id as int) is Some)
                    ==> final(self).insts@[old(self).spec_mem_inst(inst_id as int)->Some_0].mems.int.data@
                    == write_data_segments(
                    old(self).insts@[old(self).spec_mem_inst(inst_id as int)->Some_0].mems.int.data@,
                    segs,
                )
                &&& (data_in_memory_zero(segs) && old(self).spec_mem_inst(inst_id as int) is Some)
                    ==> data_segments_fit(
                    segs,
                    old(self).insts@[old(self).spec_mem_inst(inst_id as int)->Some_0].mems.int.data@.len() as int,
                )
            },
    {
        let ghost st0 = *self;
        let ghost mem_inst = st0.spec_mem_inst(inst_id as int);
        let ghost pc = p;
        let mut p = p;
        let n = p.parse_vec()?;
        let ghost pb = p;
        let ghost body = p.rest();
        let ghost mut done: Seq<(Option<(u32, u32)>, Seq<u8>)> = Seq::empty();
        proof {
            pc.lemma_wf();
            pb.lemma_wf();
            assert(body =~= pc.rest().skip(pb.pos() - pc.pos()));
            assert(body.skip(0) =~= body);
            if let Some(w) = spec_data_segments(st0, inst_id as int, body, n as nat) {
                assert(done + w =~= w);
            }
        }
        let mut k: usize = 0;
        while k < n
            invariant
                p.wf(),
                pb.wf(),
                crate::parser::same_input(pb, p),
                body == pb.rest(),
                p.rest() == body.skip(p.pos() - pb.pos()),
                k <= n,
                done.len() == k,
                inst_id < self.insts@.len(),
                mem_inst == st0.spec_mem_inst(inst_id as int),
                st0 == *old(self),
                data_frame(st0, *self),
                same_constants(st0, *self),
                spec_data_segments(st0, inst_id as int, body, n as nat) == match spec_data_segments(
                    st0,
                    inst_id as int,
                    p.rest(),
                    (n - k) as nat,
                ) {
                    Some(w) => Some(done + w),
                    None => None,
                },
                data_in_memory_zero(done) && mem_inst is Some ==> self.insts@[mem_inst->Some_0].mems.int.data@
                    == write_data_segments(st0.insts@[mem_inst->Some_0].mems.int.data@, done),
                data_in_memory_zero(done) && mem_inst is Some ==> data_segments_fit(
                    done,
                    st0.insts@[mem_inst->Some_0].mems.int.data@.len() as int,
                ),
            decreases n - k,
        {
            let ghost q = p;
            let ghost s1 = *self;
            proof {
                q.lemma_wf();
            }
            let mut compute = ComputeData {
                store: &*self,
                inst_id,
                mode: ComputedDataMode::Passive,
                init: None,
                parts: Ghost(Seq::empty()),
            };
            p.parse_data(&mut compute)?;
            let ghost parts = compute.parts@;
            let ComputeData { mode, init, .. } = compute;
            let ghost seg: (Option<(u32, u32)>, Seq<u8>) = (
                match mode {
                    ComputedDataMode::Passive => None,
                    ComputedDataMode::Active { memory, offset } => Some((memory, offset as u32)),
                },
                match init {
                    Some(x) => x@,
                    None => Seq::empty(),
                },
            );
            proof {
                p.lemma_wf();
                let (m, a) = crate::parser::spec_data_mode(q.rest())->Some_0;
                let rest = q.rest().skip(a as int);
                lemma_const_expr_frame(st0, s1, inst_id as int, rest, Seq::empty());
                let (len, nn) = spec_u32(p.rest())->Ok_0;
                let w0 = spec_data_segment(st0, inst_id as int, q.rest());
                assert(w0 matches Some((act, b, l)) && act == seg.0 && b == seg.1 && q.pos() + l
                    == p.pos());
                let l = w0->Some_0.2;
                assert(p.rest() =~= q.rest().skip(l as int));
                pb.lemma_wf();
                assert(p.rest() =~= body.skip(p.pos() - pb.pos()));
                match spec_data_segments(st0, inst_id as int, p.rest(), (n - k - 1) as nat) {
                    Some(w) => {
                        assert(done + (seq![seg] + w) =~= done.push(seg) + w);
                    },
                    None => {},
                }
            }
            let dropped = match mode {
                ComputedDataMode::Passive => false,
                ComputedDataMode::Active { memory, offset } => {
                    let mi = self.mem_loc(inst_id, memory)?;
                    match init {
                        Some(bytes) => {
                            let ghost d0 = self.insts@[mi as int].mems.int.data@;
                            memory_init(offset, 0, bytes.len(), &mut self.insts[mi].mems.int, bytes)?;
                            proof {
                                assert(self.insts@[mi as int].mems.int.data@.len() == d0.len());
                                assert(bytes@.subrange(0, bytes@.len() as int) =~= bytes@);
                                assert(offset + bytes@.len() <= d0.len());
                            }
                        },
                        None => {},
                    }
                    true
                },
            };
            self.insts[inst_id].datas.push(dropped);
            proof {
                let old_done = done;
                done = done.push(seg);
                assert(done.drop_last() =~= old_done);
                if data_in_memory_zero(done) {
                    assert(data_in_memory_zero(old_done)) by {
                        assert forall|j: int| 0 <= j < old_done.len() implies ((#[trigger] old_done[j]).0
                            matches Some((mm, _)) ==> mm == 0) by {
                            assert(old_done[j] == done[j]);
                        }
                    }
                    assert(done[done.len() - 1] == seg);
                    if mem_inst is Some {
                        assert forall|i: int| 0 <= i < done.len() implies ((#[trigger] done[i]).0
                            matches Some((_, o)) ==> o + done[i].1.len()
                            <= st0.insts@[mem_inst->Some_0].mems.int.data@.len()) by {
                            if i < old_done.len() {
                                assert(old_done[i] == done[i]);
                            }
                        }
                    }
                }
            }
            k = k + 1;
        }
        proof {
            assert(done + Seq::empty() =~= done);
        }
        Ok(())
    }

    /// Instantiates a valid module in this store with the given memory (cleared). Returns the
    /// instance and the thread of its start function, if any, which the caller runs to completion.
    #[verifier::rlimit(100)]
    #[verifier::spinoff_prover]
    #[verifier::loop_isolation(false)]
    pub fn instantiate(&mut self, module: crate::module::Module<'m>, memory: Vec<u8>) -> (r: Result<
        (InstId, Option<Thread<'m>>),
        Error,
    >)
        ensures
            final(self).id == old(self).id,
            final(self).threads@ == old(self).threads@,
            final(self).func_default == old(self).func_default,
            final(self).funcs@.len() >= old(self).funcs@.len(),
            final(self).funcs@.take(old(self).funcs@.len() as int) == old(self).funcs@,
            r matches Ok((inst, start)) ==> {
                &&& final(self).insts@.last().module == module
                &&& module_memory(module.spec_sections()) matches Some(l) ==> final(self).insts@.last().mems.int.size
                    == l.min && final(self).insts@.last().mems.int.max == l.max
                    && final(self).insts@.last().mems.int.data@.len() == mem_len(l, memory@.len() as int)
                &&& (module_memory(module.spec_sections()) is Some && crate::module::spec_find_section(
                    module.spec_sections(),
                    crate::syntax::SectionId::Data,
                ) == Ok::<Option<Seq<u8>>, Error>(None)) ==> forall|j: int|
                    0 <= j < final(self).insts@.last().mems.int.data@.len() ==> #[trigger] final(self).insts@.last().mems.int.data@[j] == 0
                &&& inst.store_id == old(self).id
                &&& inst.inst_id == old(self).insts@.len()
                &&& final(self).insts@.len() == old(self).insts@.len() + 1
                &&& start matches Some(t) ==> t.wf()
            },
            declares_functions_only(module.spec_sections()) ==> r is Ok,
            r is Ok && module_memory(module.spec_sections()) is Some && final(self).insts@.last().mems.ext@.len()
                == 0 && (old(self).insts@.len() as int) < INST_MASK ==> {
                &&& module_data_segments(
                    *final(self),
                    old(self).insts@.len() as int,
                    module.spec_sections(),
                ) matches Some(segs)
                &&& data_in_memory_zero(segs) ==> final(self).insts@.last().mems.int.data@
                    == write_data_segments(
                    Seq::new(final(self).insts@.last().mems.int.data@.len(), |j: int| 0u8),
                    segs,
                )
                &&& data_in_memory_zero(segs) ==> data_segments_fit(
                    segs,
                    final(self).insts@.last().mems.int.data@.len() as int,
                )
            },
    {
        let inst_id = self.insts.len();
        let ghost buf = memory@.len() as int;
        let imports = module.imports()?;
        self.insts.push(Instance::new(module));
        let mut i: usize = 0;
        while i < imports.len()
            invariant
                self.insts@.len() == inst_id + 1,
                self.id == old(self).id,
                self.threads@ == old(self).threads@,
                self.func_default == old(self).func_default,
                self.funcs@.len() >= old(self).funcs@.len(),
                self.funcs@.take(old(self).funcs@.len() as int) == old(self).funcs@,
                self.insts@[inst_id as int].module == module,
            decreases imports@.len() - i,
        {
            let import = &imports[i];
            let type_ = Self::import_type(&self.insts[inst_id].module, import)?;
            let ptr = self.resolve(import, &type_)?;
            match import.desc {
                crate::syntax::ImportDesc::Func(_) => self.insts[inst_id].funcs.ext.push(ptr),
                crate::syntax::ImportDesc::Table(_) => self.insts[inst_id].tables.ext.push(ptr),
                crate::syntax::ImportDesc::Mem(_) => self.insts[inst_id].mems.ext.push(ptr),
                crate::syntax::ImportDesc::Global(_) => self.insts[inst_id].globals.ext.push(ptr),
            }
            i = i + 1;
        }
        if let Some(mut p) = self.insts[inst_id].module.section(crate::syntax::SectionId::Table)? {
            let n = p.parse_vec()?;
            let mut k: usize = 0;
            while k < n
                invariant
                    p.wf(),
                    self.insts@.len() == inst_id + 1,
                    self.id == old(self).id,
                    self.threads@ == old(self).threads@,
                    self.func_default == old(self).func_default,
                    self.funcs@.len() >= old(self).funcs@.len(),
                    self.funcs@.take(old(self).funcs@.len() as int) == old(self).funcs@,
                    self.insts@[inst_id as int].module == module,
                decreases n - k,
            {
                let t = p.parse_tabletype()?;
                self.insts[inst_id].tables.int.push(Table::new(t));
                k = k + 1;
            }
        }
        if let Some(mut p) = self.insts[inst_id].module.section(crate::syntax::SectionId::Memory)? {
            let ghost c = p.rest();
            let ghost p0 = p;
            let n = p.parse_vec()?;
            if n == 1 {
                proof {
                    p0.lemma_wf();
                    p.lemma_wf();
                    let k = crate::parser::spec_u32(c)->Ok_0.1;
                    assert(p.rest() =~= c.skip(k as int));
                }
                let limits = p.parse_memtype()?;
                self.insts[inst_id].mems.int.init(memory, limits);
            } else if n > 1 {
                return Err(invalid());
            }
        }
        assert(mem_shape(*self, inst_id as int, module, buf));
        assert(mem_zero(*self, inst_id as int, module));
        if let Some(mut p) = self.insts[inst_id].module.section(crate::syntax::SectionId::Global)? {
            let n = p.parse_vec()?;
            let mut k: usize = 0;
            while k < n
                invariant
                    p.wf(),
                    self.insts@.len() == inst_id + 1,
                    self.id == old(self).id,
                    self.threads@ == old(self).threads@,
                    self.func_default == old(self).func_default,
                    self.funcs@.len() >= old(self).funcs@.len(),
                    self.funcs@.take(old(self).funcs@.len() as int) == old(self).funcs@,
                    self.insts@[inst_id as int].module == module,
                    mem_shape(*self, inst_id as int, module, buf),
                    mem_zero(*self, inst_id as int, module),
                decreases n - k,
            {
                p.parse_globaltype()?;
                let value = Thread::const_expr(self, inst_id, &mut p)?;
                self.insts[inst_id].globals.int.push(Global::new(value));
                k = k + 1;
            }
        }
        if let Some(mut p) = self.insts[inst_id].module.section(crate::syntax::SectionId::Element)? {
            let n = p.parse_vec()?;
            let mut k: usize = 0;
            while k < n
                invariant
                    p.wf(),
                    self.insts@.len() == inst_id + 1,
                    self.id == old(self).id,
                    self.threads@ == old(self).threads@,
                    self.func_default == old(self).func_default,
                    self.funcs@.len() >= old(self).funcs@.len(),
                    self.funcs@.take(old(self).funcs@.len() as int) == old(self).funcs@,
                    self.insts@[inst_id as int].module == module,
                    mem_shape(*self, inst_id as int, module, buf),
                    mem_zero(*self, inst_id as int, module),
                decreases n - k,
            {
                let mut compute = ComputeElem {
                    store: &*self,
                    inst_id,
                    mode: ComputedElemMode::Passive,
                    init: Vec::new(),
                    parts: Ghost(Seq::empty()),
                };
                p.parse_elem(&mut compute)?;
                let ComputeElem { mode, init, .. } = compute;
                let dropped = match mode {
                    ComputedElemMode::Passive => false,
                    ComputedElemMode::Active { table, offset } => {
                        let (ti, tk) = self.table_loc(inst_id, table)?;
                        table_init(
                            offset,
                            0,
                            init.len(),
                            &mut self.insts[ti].tables.int[tk],
                            init.as_slice(),
                        )?;
                        true
                    },
                    ComputedElemMode::Declarative => true,
                };
                self.insts[inst_id].elems.push(dropped);
                k = k + 1;
            }
        }
        let ghost before_data = *self;
        let ghost data_section = crate::module::spec_find_section(
            module.spec_sections(),
            crate::syntax::SectionId::Data,
        );
        if let Some(p) = self.insts[inst_id].module.section(crate::syntax::SectionId::Data)? {
            self.init_datas(inst_id, p)?;
        }
        proof {
            let s = module.spec_sections();
            if module_memory(s) is Some && self.insts@[inst_id as int].mems.ext@.len() == 0
                && (inst_id as int) < INST_MASK {
                lemma_ptr_round_trip(Side::Wasm(inst_id), 0);
                assert(before_data.spec_mem_inst(inst_id as int) == Some(inst_id as int));
                let len = before_data.insts@[inst_id as int].mems.int.data@.len();
                assert(before_data.insts@[inst_id as int].mems.int.data@ =~= Seq::new(
                    len,
                    |j: int| 0u8,
                ));
                if let Ok(Some(c)) = data_section {
                    if let Ok((n, k)) = spec_u32(c) {
                        lemma_data_segments_frame(
                            before_data,
                            *self,
                            inst_id as int,
                            c.skip(k as int),
                            n as nat,
                        );
                    }
                }
            }
        }
        let mut start = None;
        if let Some(mut p) = self.insts[inst_id].module.section(crate::syntax::SectionId::Start)? {
            let x = p.parse_funcidx()?;
            let ptr = self.func_ptr(inst_id, x)?;
            let i = match ptr.instance() {
                Side::Wasm(i) => i,
                Side::Host => return Err(invalid()),
            };
            check(i < self.insts.len())?;
            let idx = ptr.index() as usize;
            let mut parser = self.insts[i].module.func(idx)?;
            let mut locals = Vec::new();
            append_locals(&mut parser, &mut locals)?;
            let frame = Frame::new(i, 0, parser, locals, idx, 0);
            start = Some(Thread::new(parser, frame));
        }
        Ok((InstId { store_id: self.id, inst_id }, start))
    }

    /// Prepares the call of the function exported as `name` by an instance with `args`. Returns
    /// the thread of the call, which the caller runs.
    #[verifier::rlimit(50)]
    #[verifier::spinoff_prover]
    pub fn invoke(&mut self, inst: InstId, name: &str, args: Vec<Val>) -> (r: Result<Thread<'m>, Error>)
        ensures
            r matches Ok(t) ==> t.wf(),
            r is Ok ==> inst.store_id == old(self).id && inst.inst_id < old(self).insts@.len()
                && crate::module::spec_export(
                old(self).insts@[inst.inst_id as int].module.spec_sections(),
                name.spec_bytes(),
            ) matches Ok(Some(ExportDesc::Func(_))),
            (inst.store_id == old(self).id && inst.inst_id < old(self).insts@.len()) ==> match crate::module::spec_export(
                old(self).insts@[inst.inst_id as int].module.spec_sections(),
                name.spec_bytes(),
            ) {
                Ok(None) => r == Err::<Thread<'m>, Error>(Error::NotFound),
                Ok(Some(d)) => !(d is Func) ==> r == Err::<Thread<'m>, Error>(Error::Invalid),
                Err(e) => r == Err::<Thread<'m>, Error>(e),
            },
            final(self).id == old(self).id,
            final(self).insts@ == old(self).insts@,
            *final(self) == *old(self),
            inst.store_id != old(self).id ==> r == Err::<Thread<'m>, Error>(Error::Invalid),
            r is Ok <==> invoke_ok(*old(self), inst, name.spec_bytes(), args@),
            invoke_args_mismatch(*old(self), inst, name.spec_bytes(), args@) ==> r == Err::<Thread<'m>, Error>(Error::Invalid),
            r matches Ok(t) ==> invoke_started(*old(self), inst, name.spec_bytes(), args@, t),
    {
        let inst_id = self.inst_id(inst)?;
        check(inst_id < self.insts.len())?;
        let ptr = match self.insts[inst_id].module.export(name)? {
            Some(crate::syntax::ExportDesc::Func(x)) => self.insts[inst_id].funcs.ptr(inst_id, x)?,
            Some(_) => return Err(invalid()),
            None => return Err(crate::error::not_found()),
        };
        let i = match ptr.instance() {
            Side::Wasm(i) => i,
            Side::Host => return Err(invalid()),
        };
        check(i < self.insts.len())?;
        let x = ptr.index();
        let t = self.insts[i].module.func_type(x)?;
        let mut parser = self.insts[i].module.func(x as usize)?;
        check_types(t.params.0.as_slice(), args.as_slice())?;
        let ghost p0 = parser;
        let mut locals = args;
        append_locals(&mut parser, &mut locals)?;
        proof {
            p0.lemma_wf();
            parser.lemma_wf();
            assert(parser.rest() =~= p0.rest().skip(parser.pos() - p0.pos()));
        }
        let frame = Frame::new(i, t.results.len(), parser, locals, x as usize, 0);
        Ok(Thread::new(parser, frame))
    }

    /// Returns the value of the global exported as `name` by an instance.
    pub fn get_global(&mut self, inst: InstId, name: &str) -> (r: Result<Val, Error>)
        ensures
            final(self).insts@ == old(self).insts@,
            match r {
                Ok(v) => {
                    &&& inst.store_id == old(self).id
                    &&& inst.inst_id < old(self).insts@.len()
                    &&& crate::module::spec_export(
                        old(self).insts@[inst.inst_id as int].module.spec_sections(),
                        name.spec_bytes(),
                    ) matches Ok(Some(ExportDesc::Global(x)))
                    &&& old(self).spec_global_loc(inst.inst_id as int, x as int) matches Some((i, k))
                    &&& v == old(self).insts@[i].globals.int@[k].value
                },
                Err(_) => true,
            },
            (inst.store_id == old(self).id && inst.inst_id < old(self).insts@.len()) ==> match crate::module::spec_export(
                old(self).insts@[inst.inst_id as int].module.spec_sections(),
                name.spec_bytes(),
            ) {
                Ok(None) => r == Err::<Val, Error>(Error::NotFound),
                Ok(Some(d)) => !(d is Global) ==> r == Err::<Val, Error>(Error::Invalid),
                Err(e) => r == Err::<Val, Error>(e),
            },
            *final(self) == *old(self),
            inst.store_id != old(self).id ==> r == Err::<Val, Error>(Error::Invalid),
            r is Ok <==> exported_global(*old(self), inst, name.spec_bytes()) is Some,
    {
        let inst_id = self.inst_id(inst)?;
        check(inst_id < self.insts.len())?;
        let x = match self.insts[inst_id].module.export(name)? {
            Some(crate::syntax::ExportDesc::Global(x)) => x,
            Some(_) => return Err(invalid()),
            None => return Err(crate::error::not_found()),
        };
        let (i, k) = self.global_loc(inst_id, x)?;
        Ok(self.insts[i].globals.int[k].value)
    }
}

/// The pointer to the function that instance `inst_id` of `s` exports as `name`, if it exports a
/// function under that name.
pub open spec fn exported_func<'m>(s: Store<'m>, inst_id: int, name: Seq<u8>) -> Option<Ptr> {
    if 0 <= inst_id < s.insts@.len() {
        match crate::module::spec_export(s.insts@[inst_id].module.spec_sections(), name) {
            Ok(Some(ExportDesc::Func(x))) => s.insts@[inst_id].funcs.spec_ptr(inst_id, x as int),
            _ => None,
        }
    } else {
        None
    }
}

/// Whether invoking the export `name` of `inst` in `s` with `args` succeeds: `inst` is of this
/// store and exports under `name` a function of an instance, whose body is well-formed and whose
/// parameters `args` match.
pub open spec fn invoke_ok<'m>(s: Store<'m>, inst: InstId, name: Seq<u8>, args: Seq<Val>) -> bool {
    &&& inst.store_id == s.id
    &&& exported_func(s, inst.inst_id as int, name) matches Some(p)
    &&& p.spec_instance() matches Side::Wasm(i)
    &&& wasm_func_type(s, p) matches Some(t)
    &&& p.spec_index() < s.insts@[i as int].module.spec_side_table().len()
    &&& t.params.len() == args.len()
    &&& forall|j: int| 0 <= j < args.len() ==> spec_contains(#[trigger] t.params[j], args[j])
    &&& spec_locals(s.insts@[i as int].module.spec_func_body(p.spec_index() as int)) is Some
}

/// Whether invoking the export `name` of `inst` in `s` reaches a well-formed function of an
/// instance whose parameters `args` do not match.
pub open spec fn invoke_args_mismatch<'m>(s: Store<'m>, inst: InstId, name: Seq<u8>, args: Seq<Val>) -> bool {
    &&& inst.store_id == s.id
    &&& exported_func(s, inst.inst_id as int, name) matches Some(p)
    &&& p.spec_instance() matches Side::Wasm(i)
    &&& wasm_func_type(s, p) matches Some(t)
    &&& p.spec_index() < s.insts@[i as int].module.spec_side_table().len()
    &&& !(t.params.len() == args.len() && forall|j: int| 0 <= j < args.len() ==> spec_contains(
        #[trigger] t.params[j],
        args[j],
    ))
}

/// Whether `t` is the thread that calls the export `name` of `inst` in `s` with `args`: a single
/// frame of the function, whose locals are the arguments and the defaults of its declared locals,
/// with no values, at the start of its code.
pub open spec fn invoke_started<'m>(s: Store<'m>, inst: InstId, name: Seq<u8>, args: Seq<Val>, t: Thread<'m>) -> bool {
    let p = exported_func(s, inst.inst_id as int, name)->Some_0;
    let i = p.spec_instance()->Wasm_0 as int;
    let m = s.insts@[i].module;
    let body = m.spec_func_body(p.spec_index() as int);
    let (ls, n) = spec_locals(body)->Some_0;
    let f = t.frames@[0];
    &&& t.values@.len() == 0
    &&& t.frames@.len() == 1
    &&& f.inst_id == i
    &&& f.func == p.spec_index()
    &&& f.arity == wasm_func_type(s, p)->Some_0.results.len()
    &&& f.stp == 0
    &&& f.labels_cnt == 1
    &&& f.prev_stack == 0
    &&& f.locals@ == args + ls
    &&& t.parser.rest() == body.skip(n as int)
}

/// The instance and index of the global that `inst` of `s` exports as `name`, if any.
pub open spec fn exported_global<'m>(s: Store<'m>, inst: InstId, name: Seq<u8>) -> Option<(int, int)> {
    if inst.store_id == s.id && inst.inst_id < s.insts@.len() {
        match crate::module::spec_export(s.insts@[inst.inst_id as int].module.spec_sections(), name) {
            Ok(Some(ExportDesc::Global(x))) => s.spec_global_loc(inst.inst_id as int, x as int),
            _ => None,
        }
    } else {
        None
    }
}

/// The store while the host runs a call of one of its functions./// The store while the host runs a call of one of its functions.
#[derive(Debug)]
pub struct Call<'a, 'm> {
    pub store: &'a mut Store<'m>,
}

/// The result of running a thread.
#[derive(Debug)]
pub enum RunResult<'a, 'm> {
    /// Execution terminated successfully with those values.
    Done(Vec<Val>),
    /// Execution is calling into the host.
    Host(Call<'a, 'm>),
}

/// The result of running a thread, without the host call.
#[derive(Debug, PartialEq, Eq)]
pub enum RunAnswer {
    Done(Vec<Val>),
    Host,
}

impl<'a, 'm> RunResult<'a, 'm> {
    /// Forgets the host call.
    pub fn forget(self) -> (r: RunAnswer)
        ensures
            match self {
                RunResult::Done(v) => r == RunAnswer::Done(v),
                RunResult::Host(_) => r == RunAnswer::Host,
            },
    {
        match self {
            RunResult::Done(result) => RunAnswer::Done(result),
            RunResult::Host(_) => RunAnswer::Host,
        }
    }
}

impl<'m> Store<'m> {
    /// Returns the call in the host, if any.
    pub fn last_call(&mut self) -> (r: Option<Call<'_, 'm>>)
        ensures
            r is Some <==> old(self).threads@.len() > 0,
    {
        if self.threads.len() == 0 {
            None
        } else {
            Some(Call { store: self })
        }
    }

    /// Returns the memory of the given instance.
    pub fn memory(&mut self, inst: InstId) -> (r: Result<&mut [u8], Error>)
        ensures
            match r {
                Ok(m) => {
                    &&& inst.store_id == old(self).id
                    &&& old(self).spec_mem_inst(inst.inst_id as int) matches Some(i)
                    &&& m@ == old(self).insts@[i].mems.int.data@
                },
                Err(_) => inst.store_id != old(self).id || old(self).spec_mem_inst(
                    inst.inst_id as int,
                ) is None,
            },
            r is Err ==> r == Err::<&mut [u8], Error>(Error::Invalid),
            r is Ok <==> inst.store_id == old(self).id && old(self).spec_mem_inst(inst.inst_id as int) is Some,
    {
        let inst_id = self.inst_id(inst)?;
        let mi = self.mem_loc(inst_id, 0)?;
        Ok(self.insts[mi].mems.int.data.as_mut_slice())
    }
}

impl<'a, 'm> Call<'a, 'm> {
    /// The continuation waiting for the host.
    fn cont(&self) -> (r: Result<&Continuation<'m>, Error>)
        ensures
            match r {
                Ok(c) => old(self.store).threads@.len() > 0 && *c == old(self.store).threads@.last(),
                Err(e) => old(self.store).threads@.len() == 0 && e == Error::Invalid,
            },
    {
        check(self.store.threads.len() > 0)?;
        Ok(&self.store.threads[self.store.threads.len() - 1])
    }

    /// Returns the index of the host function being called.
    pub fn index(&self) -> (r: Result<usize, Error>)
        ensures
            r is Ok <==> old(self.store).threads@.len() > 0,
            r matches Ok(x) ==> x == old(self.store).threads@.last().index,
    {
        check(self.store.threads.len() > 0)?;
        Ok(self.store.threads[self.store.threads.len() - 1].index)
    }

    /// Returns the arguments to the host function being called.
    pub fn args(&self) -> (r: Result<&[Val], Error>)
        ensures
            r is Ok <==> old(self.store).threads@.len() > 0,
            r matches Ok(x) ==> x@ == old(self.store).threads@.last().args@,
    {
        check(self.store.threads.len() > 0)?;
        Ok(self.store.threads[self.store.threads.len() - 1].args.as_slice())
    }

    /// Returns the identifier of the instance calling the host.
    pub fn inst(&self) -> (r: Result<InstId, Error>)
        ensures
            match r {
                Ok(i) => i.store_id == old(self.store).id && old(self.store).caller() == Some(
                    i.inst_id as int,
                ),
                Err(e) => old(self.store).caller() is None && e == Error::Invalid,
            },
    {
        let cont = self.cont()?;
        let inst_id = cont.thread.inst_id()?;
        Ok(InstId { store_id: self.store.id, inst_id })
    }

    /// Returns the memory of the instance calling the host.
    pub fn mem(self) -> (r: Result<&'a mut [u8], Error>)
        ensures
            match r {
                Ok(m) => old(self.store).caller() matches Some(c) && old(self.store).spec_mem_inst(c)
                    matches Some(i) && m@ == old(self.store).insts@[i].mems.int.data@,
                Err(_) => old(self.store).caller() is None || old(self.store).spec_mem_inst(
                    old(self.store).caller()->Some_0,
                ) is None,
            },
    {
        let inst = self.inst()?;
        let store = self.store;
        store.memory(inst)
    }

    /// Returns the memory of the instance calling the host.
    pub fn mem_mut(&mut self) -> (r: Result<&mut [u8], Error>)
        ensures
            match r {
                Ok(m) => old(self).store.caller() matches Some(c) && old(self).store.spec_mem_inst(c)
                    matches Some(i) && m@ == old(self).store.insts@[i].mems.int.data@,
                Err(_) => old(self).store.caller() is None || old(self).store.spec_mem_inst(
                    old(self).store.caller()->Some_0,
                ) is None,
            },
    {
        let inst = self.inst()?;
        self.store.memory(inst)
    }

    /// Resumes the thread with the results from the host. Returns the thread, which the caller
    /// runs.
    pub fn resume(self, results: &[Val]) -> (r: Result<Thread<'m>, Error>)
        ensures
            r is Ok ==> old(self.store).threads@.len() > 0,
            r is Ok ==> final(self.store).threads@ == old(self.store).threads@.drop_last(),
            r is Ok <==> old(self.store).threads@.len() > 0 && results@.len()
                == old(self.store).threads@.last().arity,
            old(self.store).threads@.len() > 0 ==> final(self.store).threads@
                == old(self.store).threads@.drop_last(),
            final(self.store).insts == old(self.store).insts,
            final(self.store).funcs == old(self.store).funcs,
            final(self.store).id == old(self.store).id,
            r matches Ok(t) ==> {
                let c = old(self.store).threads@.last().thread;
                &&& t.values@ == c.values@ + results@
                &&& t.frames == c.frames
                &&& t.parser == c.parser
                &&& c.wf() ==> t.wf()
            },
            r is Err ==> r == Err::<Thread<'m>, Error>(Error::Invalid),
    {
        let store = self.store;
        check(store.threads.len() > 0)?;
        let cont = store.threads.pop().unwrap();
        check(results.len() == cont.arity)?;
        let mut thread = cont.thread;
        thread.push_values(results);
        Ok(thread)
    }
}

proof fn lemma_le_value_push(s: Seq<u8>, b: u8)
    ensures
        le_value(s.push(b)) == le_value(s) + b * pow2(8 * s.len()),
    decreases s.len(),
{
    lemma2_to64();
    let t = s.push(b);
    assert(le_value(t) == t[0] + 256 * le_value(t.drop_first()));
    if s.len() == 0 {
        assert(t.drop_first() =~= Seq::<u8>::empty());
        assert(le_value(t.drop_first()) == 0);
        assert(le_value(s) == 0);
        assert(pow2(8 * s.len()) == 1);
        assert(le_value(t) == b);
    } else {
        let r = s.drop_first();
        assert(t.drop_first() =~= r.push(b));
        assert(t[0] == s[0]);
        assert(le_value(s) == s[0] + 256 * le_value(r));
        lemma_le_value_push(r, b);
        let k: nat = (8 * r.len()) as nat;
        vstd::arithmetic::power2::lemma_pow2_adds(8, k);
        assert(8 * s.len() == 8 + k);
        let p = pow2(k) as int;
        assert(pow2(8 * s.len()) == 256 * p);
        let lr = le_value(r) as int;
        let bi = b as int;
        assert(le_value(r.push(b)) == lr + bi * p);
        assert(256 * (lr + bi * p) == 256 * lr + bi * (256 * p)) by (nonlinear_arith);
        assert(le_value(t) == s[0] + 256 * (lr + bi * p));
    }
}

proof fn lemma_shr_bytes(x: nat, k: nat)
    ensures
        shr_bytes(x, k) == x / pow2(8 * k),
    decreases k,
{
    lemma2_to64();
    if k == 0 {
        assert(pow2(0) == 1);
        assert(x / 1 == x);
    } else {
        let j: nat = (k - 1) as nat;
        lemma_shr_bytes(x, j);
        let p = pow2(8 * j) as int;
        vstd::arithmetic::power2::lemma_pow2_pos(8 * j);
        vstd::arithmetic::div_mod::lemma_div_denominator(x as int, p, 256);
        vstd::arithmetic::power2::lemma_pow2_adds(8 * j, 8);
        assert(8 * k == 8 * j + 8);
        assert(pow2(8 * k) == p * 256);
        assert(shr_bytes(x, k) == shr_bytes(x, j) / 256);
        assert(shr_bytes(x, j) == x as int / p);
        assert((x as int / p) / 256 == x as int / (p * 256));
    }
}

/// Reading the little-endian bytes of the `n` low bytes of a number gives them back.
pub proof fn lemma_le_round_trip(x: nat, n: nat)
    ensures
        le_value(le_bytes(x, n)) == x % pow2(8 * n),
    decreases n,
{
    lemma2_to64();
    if n == 0 {
        assert(x % 1 == 0);
    } else {
        let m = (n - 1) as nat;
        lemma_le_round_trip(x, m);
        lemma_le_bytes_len(x, m);
        lemma_le_value_push(le_bytes(x, m), (shr_bytes(x, m) % 256) as u8);
        lemma_shr_bytes(x, m);
        let p = pow2(8 * m) as int;
        vstd::arithmetic::power2::lemma_pow2_pos(8 * m);
        vstd::arithmetic::div_mod::lemma_mod_breakdown(x as int, p, 256);
        vstd::arithmetic::power2::lemma_pow2_adds(8 * m, 8);
        assert((8 * n) as nat == 8 * m + 8);
        let xi = x as int;
        assert(p * ((xi / p) % 256) == ((xi / p) % 256) * p) by (nonlinear_arith);
    }
}

/// Loading all the bytes that a store of a number wrote gives the number back.
pub proof fn lemma_load_store(t: NumType, v: Val)
    requires
        num_bits(t, v) is Some,
    ensures
        spec_load(
            t,
            Sx::U,
            le_bytes(num_bits(t, v)->Some_0, if t is I32 || t is F32 {
                4
            } else {
                8
            }),
        ) == v,
{
    lemma2_to64();
    let x = num_bits(t, v)->Some_0;
    let n: nat = if t is I32 || t is F32 {
        4
    } else {
        8
    };
    lemma_le_round_trip(x, n);
    lemma_le_bytes_len(x, n);
    let bytes = le_bytes(x, n);
    if n == 4 {
        assert(pow2(8 * n) == 0x1_0000_0000);
        assert(x < 0x1_0000_0000);
        assert(x % 0x1_0000_0000 == x);
    } else {
        assert(pow2(8 * n) == 0x1_0000_0000_0000_0000);
        assert(x < 0x1_0000_0000_0000_0000);
        assert(x % 0x1_0000_0000_0000_0000 == x);
    }
    assert(le_value(bytes) == x);
}

/// Execution in a store follows a stack: a step that calls the host pushes the waiting thread
/// on the threads of the store (`Thread::step`), and resuming the call pops it
/// (`Call::resume`), which gives back the threads from before the call.
pub proof fn lemma_host_call_stack<'m>(before: Store<'m>, during: Store<'m>, after: Store<'m>)
    requires
        during.threads@.len() == before.threads@.len() + 1,
        during.threads@.drop_last() == before.threads@,
        after.threads@ == during.threads@.drop_last(),
    ensures
        after.threads@ == before.threads@,
        during.threads@ == before.threads@.push(during.threads@.last()),
{
    assert(during.threads@ =~= before.threads@.push(during.threads@.last()));
}

/// Loading, at the address of a store, a number of the type stored with its full width gives
/// back the stored number: `store_effect` writes the bytes that `load_effect` reads.
pub proof fn lemma_store_then_load(mem: Memory, data1: Seq<u8>, t: NumType, v: Val, i: u32, m: MemArg)
    requires
        num_bits(t, v) is Some,
        effective_address(i, m, width_bytes(t), &mem) is Some,
        data1 == mem.data@.take(effective_address(i, m, width_bytes(t), &mem)->Some_0 as int)
            + le_bytes(num_bits(t, v)->Some_0, width_bytes(t)) + mem.data@.skip(
            (effective_address(i, m, width_bytes(t), &mem)->Some_0 + width_bytes(t)) as int,
        ),
    ensures
        ({
            let ea = effective_address(i, m, width_bytes(t), &mem)->Some_0;
            spec_load(t, Sx::U, data1.subrange(ea as int, (ea + width_bytes(t)) as int)) == v
        }),
{
    let ea = effective_address(i, m, width_bytes(t), &mem)->Some_0;
    let n = width_bytes(t);
    let bytes = le_bytes(num_bits(t, v)->Some_0, n);
    lemma_le_bytes_len(num_bits(t, v)->Some_0, n);
    assert(ea + n <= mem.data@.len());
    assert(data1.subrange(ea as int, (ea + n) as int) =~= bytes);
    lemma_load_store(t, v);
}

/// The number of bytes of a number of type `t`.
pub open spec fn width_bytes(t: NumType) -> nat {
    if t is I32 || t is F32 {
        4
    } else {
        8
    }
}

} // verus!


