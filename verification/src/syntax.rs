//! The abstract syntax of WebAssembly modules, with the byte encodings of its enumerations.
use vstd::prelude::*;

verus! {

/// Number types.
#[derive(Debug, Copy, Clone, PartialEq, Eq, Structural)]
pub enum NumType {
    I32,
    I64,
    F32,
    F64,
}

/// Vector types.
#[derive(Debug, Copy, Clone, PartialEq, Eq, Structural)]
pub enum VecType {
    V128,
}

/// Reference types.
#[derive(Debug, Copy, Clone, PartialEq, Eq, Structural)]
pub enum RefType {
    FuncRef,
    ExternRef,
}

/// Value types.
#[derive(Debug, Copy, Clone, PartialEq, Eq, Structural)]
pub enum ValType {
    I32,
    I64,
    F32,
    F64,
    V128,
    FuncRef,
    ExternRef,
}

/// A sequence of value types.
#[derive(Debug, Clone)]
pub struct ResultType(pub Vec<ValType>);

impl View for ResultType {
    type V = Seq<ValType>;

    open spec fn view(&self) -> Seq<ValType> {
        self.0@
    }
}

/// A function type: parameters and results.
#[derive(Debug, Clone)]
pub struct FuncType {
    pub params: ResultType,
    pub results: ResultType,
}

/// The mathematical value of a function type.
pub struct FuncTypeView {
    pub params: Seq<ValType>,
    pub results: Seq<ValType>,
}

impl View for FuncType {
    type V = FuncTypeView;

    open spec fn view(&self) -> FuncTypeView {
        FuncTypeView { params: self.params@, results: self.results@ }
    }
}

/// Size limits of a table or memory.
#[derive(Debug, Copy, Clone, PartialEq, Eq, Structural)]
pub struct Limits {
    pub min: u32,
    pub max: u32,
}

/// The largest number of elements of a table.
pub const TABLE_MAX: u32 = 0xffff_ffffu32;

/// The largest number of pages of a memory.
pub const MEM_MAX: u32 = 0x10000u32;

/// Memory types are limits in pages.
pub type MemType = Limits;

/// Table types.
#[derive(Debug, Copy, Clone, PartialEq, Eq, Structural)]
pub struct TableType {
    pub limits: Limits,
    pub item: RefType,
}

/// Mutability of a global.
#[derive(Debug, Copy, Clone, PartialEq, Eq, Structural)]
pub enum Mut {
    Const,
    Var,
}

/// Global types.
#[derive(Debug, Copy, Clone, PartialEq, Eq, Structural)]
pub struct GlobalType {
    pub mutable: Mut,
    pub value: ValType,
}

/// Signedness.
#[derive(Debug, Copy, Clone, PartialEq, Eq, Structural)]
pub enum Sx {
    U,
    S,
}

/// Integer widths.
#[derive(Debug, Copy, Clone, PartialEq, Eq, Structural)]
pub enum Nx {
    N32,
    N64,
}

/// Packed widths (an integer width and a memory width).
#[derive(Debug, Copy, Clone, PartialEq, Eq, Structural)]
pub enum Bx {
    N32B8,
    N32B16,
    N64B8,
    N64B16,
    N64B32,
}

#[derive(Debug, Copy, Clone, PartialEq, Eq, Structural)]
pub enum ITestOp {
    Eqz,
}

#[derive(Debug, Copy, Clone, PartialEq, Eq, Structural)]
pub enum IRelOp {
    Eq,
    Ne,
    Lt(Sx),
    Gt(Sx),
    Le(Sx),
    Ge(Sx),
}

#[derive(Debug, Copy, Clone, PartialEq, Eq, Structural)]
pub enum IUnOp {
    Clz,
    Ctz,
    PopCnt,
}

#[derive(Debug, Copy, Clone, PartialEq, Eq, Structural)]
pub enum IBinOp {
    Add,
    Sub,
    Mul,
    Div(Sx),
    Rem(Sx),
    And,
    Or,
    Xor,
    Shl,
    Shr(Sx),
    Rotl,
    Rotr,
}

#[derive(Debug, Copy, Clone, PartialEq, Eq, Structural)]
pub enum FRelOp {
    Eq,
    Ne,
    Lt,
    Gt,
    Le,
    Ge,
}

#[derive(Debug, Copy, Clone, PartialEq, Eq, Structural)]
pub enum FUnOp {
    Abs,
    Neg,
    Ceil,
    Floor,
    Trunc,
    Nearest,
    Sqrt,
}

#[derive(Debug, Copy, Clone, PartialEq, Eq, Structural)]
pub enum FBinOp {
    Add,
    Sub,
    Mul,
    Div,
    Min,
    Max,
    CopySign,
}

/// Conversion operators.
#[derive(Debug, Copy, Clone, PartialEq, Eq, Structural)]
pub enum CvtOp {
    Wrap,
    Extend(Sx),
    Trunc(Nx, Nx, Sx),
    TruncSat(Nx, Nx, Sx),
    Convert(Nx, Nx, Sx),
    Demote,
    Promote,
    IReinterpret(Nx),
    FReinterpret(Nx),
}

pub type TypeIdx = u32;

pub type FuncIdx = u32;

pub type TableIdx = u32;

pub type MemIdx = u32;

pub type GlobalIdx = u32;

pub type ElemIdx = u32;

pub type DataIdx = u32;

pub type LocalIdx = u32;

pub type LabelIdx = u32;

/// Instructions.
#[derive(Debug, Clone)]
pub enum Instr {
    Unreachable,
    Nop,
    Block(BlockType),
    Loop(BlockType),
    If(BlockType),
    Else,
    End,
    Br(LabelIdx),
    BrIf(LabelIdx),
    BrTable(Vec<LabelIdx>, LabelIdx),
    Return,
    Call(FuncIdx),
    CallIndirect(TableIdx, TypeIdx),
    Drop,
    Select(Option<ResultType>),
    LocalGet(LocalIdx),
    LocalSet(LocalIdx),
    LocalTee(LocalIdx),
    GlobalGet(GlobalIdx),
    GlobalSet(GlobalIdx),
    TableGet(TableIdx),
    TableSet(TableIdx),
    ILoad(Nx, MemArg),
    FLoad(Nx, MemArg),
    ILoad_(Bx, Sx, MemArg),
    IStore(Nx, MemArg),
    FStore(Nx, MemArg),
    IStore_(Bx, MemArg),
    MemorySize,
    MemoryGrow,
    I32Const(u32),
    I64Const(u64),
    F32Const(u32),
    F64Const(u64),
    ITestOp(Nx, ITestOp),
    IRelOp(Nx, IRelOp),
    FRelOp(Nx, FRelOp),
    IUnOp(Nx, IUnOp),
    FUnOp(Nx, FUnOp),
    IBinOp(Nx, IBinOp),
    FBinOp(Nx, FBinOp),
    CvtOp(CvtOp),
    IExtend(Bx),
    RefNull(RefType),
    RefIsNull,
    RefFunc(FuncIdx),
    MemoryInit(DataIdx),
    DataDrop(DataIdx),
    MemoryCopy,
    MemoryFill,
    TableInit(TableIdx, ElemIdx),
    ElemDrop(ElemIdx),
    TableCopy(TableIdx, TableIdx),
    TableGrow(TableIdx),
    TableSize(TableIdx),
    TableFill(TableIdx),
}

/// Export descriptions.
#[derive(Debug, Copy, Clone, PartialEq, Eq, Structural)]
pub enum ExportDesc {
    Func(FuncIdx),
    Table(TableIdx),
    Mem(MemIdx),
    Global(GlobalIdx),
}

/// Import descriptions.
#[derive(Debug, Copy, Clone, PartialEq, Eq, Structural)]
pub enum ImportDesc {
    Func(TypeIdx),
    Table(TableType),
    Mem(MemType),
    Global(GlobalType),
}

/// Imports.
#[derive(Debug, Clone)]
pub struct Import<'m> {
    pub module: &'m str,
    pub name: &'m str,
    pub desc: ImportDesc,
}

/// External types.
#[derive(Debug, Clone)]
pub enum ExternType {
    Func(FuncType),
    Table(TableType),
    Mem(MemType),
    Global(GlobalType),
}

/// Block types.
#[derive(Debug, Copy, Clone, PartialEq, Eq, Structural)]
pub enum BlockType {
    /// No parameters and no results (named `None` in the binary format).
    Empty,
    Type(ValType),
    Index(TypeIdx),
}

/// Memory arguments of loads and stores.
#[derive(Debug, Copy, Clone, PartialEq, Eq, Structural)]
pub struct MemArg {
    pub align: u32,
    pub offset: u32,
}

/// Section identifiers.
#[derive(Debug, Copy, Clone, PartialEq, Eq, Structural)]
pub enum SectionId {
    Custom,
    Type,
    Import,
    Function,
    Table,
    Memory,
    Global,
    Export,
    Start,
    Element,
    Code,
    Data,
    DataCount,
}

// ---------------------------------------------------------------------------------------------
// Byte encodings.

/// Types that are encoded as one byte.
pub trait TryFromByte: Sized {
    /// The value encoded by a byte, if any.
    spec fn spec_from_byte(byte: u8) -> Option<Self>;

    /// Decodes a byte.
    fn try_from_byte(byte: u8) -> (r: Option<Self>)
        ensures
            r == Self::spec_from_byte(byte),
    ;
}

pub open spec fn valtype_from_byte(byte: u8) -> Option<ValType> {
    if byte == 0x7f {
        Some(ValType::I32)
    } else if byte == 0x7e {
        Some(ValType::I64)
    } else if byte == 0x7d {
        Some(ValType::F32)
    } else if byte == 0x7c {
        Some(ValType::F64)
    } else if byte == 0x7b {
        Some(ValType::V128)
    } else if byte == 0x70 {
        Some(ValType::FuncRef)
    } else if byte == 0x6f {
        Some(ValType::ExternRef)
    } else {
        None
    }
}

pub open spec fn reftype_from_byte(byte: u8) -> Option<RefType> {
    if byte == 0x70 {
        Some(RefType::FuncRef)
    } else if byte == 0x6f {
        Some(RefType::ExternRef)
    } else {
        None
    }
}

pub open spec fn mut_from_byte(byte: u8) -> Option<Mut> {
    if byte == 0 {
        Some(Mut::Const)
    } else if byte == 1 {
        Some(Mut::Var)
    } else {
        None
    }
}

pub open spec fn section_id_from_byte(byte: u8) -> Option<SectionId> {
    if byte == 0 {
        Some(SectionId::Custom)
    } else if byte == 1 {
        Some(SectionId::Type)
    } else if byte == 2 {
        Some(SectionId::Import)
    } else if byte == 3 {
        Some(SectionId::Function)
    } else if byte == 4 {
        Some(SectionId::Table)
    } else if byte == 5 {
        Some(SectionId::Memory)
    } else if byte == 6 {
        Some(SectionId::Global)
    } else if byte == 7 {
        Some(SectionId::Export)
    } else if byte == 8 {
        Some(SectionId::Start)
    } else if byte == 9 {
        Some(SectionId::Element)
    } else if byte == 10 {
        Some(SectionId::Code)
    } else if byte == 11 {
        Some(SectionId::Data)
    } else if byte == 12 {
        Some(SectionId::DataCount)
    } else {
        None
    }
}

impl TryFromByte for ValType {
    open spec fn spec_from_byte(byte: u8) -> Option<ValType> {
        valtype_from_byte(byte)
    }

    fn try_from_byte(byte: u8) -> (r: Option<ValType>) {
        match byte {
            0x7f => Some(ValType::I32),
            0x7e => Some(ValType::I64),
            0x7d => Some(ValType::F32),
            0x7c => Some(ValType::F64),
            0x7b => Some(ValType::V128),
            0x70 => Some(ValType::FuncRef),
            0x6f => Some(ValType::ExternRef),
            _ => None,
        }
    }
}

impl TryFromByte for RefType {
    open spec fn spec_from_byte(byte: u8) -> Option<RefType> {
        reftype_from_byte(byte)
    }

    fn try_from_byte(byte: u8) -> (r: Option<RefType>) {
        match byte {
            0x70 => Some(RefType::FuncRef),
            0x6f => Some(RefType::ExternRef),
            _ => None,
        }
    }
}

impl TryFromByte for Mut {
    open spec fn spec_from_byte(byte: u8) -> Option<Mut> {
        mut_from_byte(byte)
    }

    fn try_from_byte(byte: u8) -> (r: Option<Mut>) {
        match byte {
            0 => Some(Mut::Const),
            1 => Some(Mut::Var),
            _ => None,
        }
    }
}

impl TryFromByte for SectionId {
    open spec fn spec_from_byte(byte: u8) -> Option<SectionId> {
        section_id_from_byte(byte)
    }

    fn try_from_byte(byte: u8) -> (r: Option<SectionId>) {
        match byte {
            0 => Some(SectionId::Custom),
            1 => Some(SectionId::Type),
            2 => Some(SectionId::Import),
            3 => Some(SectionId::Function),
            4 => Some(SectionId::Table),
            5 => Some(SectionId::Memory),
            6 => Some(SectionId::Global),
            7 => Some(SectionId::Export),
            8 => Some(SectionId::Start),
            9 => Some(SectionId::Element),
            10 => Some(SectionId::Code),
            11 => Some(SectionId::Data),
            12 => Some(SectionId::DataCount),
            _ => None,
        }
    }
}

impl TryFromByte for bool {
    open spec fn spec_from_byte(byte: u8) -> Option<bool> {
        if byte == 0 {
            Some(false)
        } else if byte == 1 {
            Some(true)
        } else {
            None
        }
    }

    fn try_from_byte(byte: u8) -> (r: Option<bool>) {
        match byte {
            0 => Some(false),
            1 => Some(true),
            _ => None,
        }
    }
}

impl ValType {
    /// The byte that encodes this type.
    pub open spec fn spec_byte(self) -> u8 {
        match self {
            ValType::I32 => 0x7f,
            ValType::I64 => 0x7e,
            ValType::F32 => 0x7d,
            ValType::F64 => 0x7c,
            ValType::V128 => 0x7b,
            ValType::FuncRef => 0x70,
            ValType::ExternRef => 0x6f,
        }
    }
}

/// Decoding the encoding of a value type gives it back.
pub proof fn lemma_valtype_byte_round_trip(t: ValType)
    ensures
        valtype_from_byte(t.spec_byte()) == Some(t),
{
}

/// A byte decodes to a value type only if it is the encoding of that type.
pub proof fn lemma_valtype_byte_injective(b: u8)
    ensures
        valtype_from_byte(b) matches Some(t) ==> t.spec_byte() == b,
{
}

impl SectionId {
    pub open spec fn spec_order(self) -> u8 {
        match self {
            SectionId::Custom => 0,
            SectionId::Type => 1,
            SectionId::Import => 2,
            SectionId::Function => 3,
            SectionId::Table => 4,
            SectionId::Memory => 5,
            SectionId::Global => 6,
            SectionId::Export => 7,
            SectionId::Start => 8,
            SectionId::Element => 9,
            SectionId::DataCount => 10,
            SectionId::Code => 11,
            SectionId::Data => 12,
        }
    }

    /// The position of the section in a module (the data count section comes before the code).
    pub fn order(self) -> (r: u8)
        ensures
            r == self.spec_order(),
    {
        match self {
            SectionId::Custom => 0,
            SectionId::Type => 1,
            SectionId::Import => 2,
            SectionId::Function => 3,
            SectionId::Table => 4,
            SectionId::Memory => 5,
            SectionId::Global => 6,
            SectionId::Export => 7,
            SectionId::Start => 8,
            SectionId::Element => 9,
            SectionId::DataCount => 10,
            SectionId::Code => 11,
            SectionId::Data => 12,
        }
    }
}

/// Distinct sections have distinct positions.
pub proof fn lemma_section_order_injective(a: SectionId, b: SectionId)
    ensures
        a.spec_order() == b.spec_order() <==> a == b,
{
}

// ---------------------------------------------------------------------------------------------
// Types.

impl ResultType {
    /// The empty result type.
    pub fn empty() -> (r: ResultType)
        ensures
            r@ == Seq::<ValType>::empty(),
    {
        ResultType(Vec::new())
    }

    /// The result type of a single value.
    pub fn single(t: ValType) -> (r: ResultType)
        ensures
            r@ == seq![t],
    {
        let mut v = Vec::new();
        v.push(t);
        ResultType(v)
    }

    pub fn len(&self) -> (r: usize)
        ensures
            r == self@.len(),
    {
        self.0.len()
    }

    pub fn is_empty(&self) -> (r: bool)
        ensures
            r <==> self@.len() == 0,
    {
        self.0.len() == 0
    }

    pub fn get(&self, i: usize) -> (r: ValType)
        requires
            i < self@.len(),
        ensures
            r == self@[i as int],
    {
        self.0[i]
    }

    /// Whether two result types hold the same value types in the same order.
    pub fn same(&self, other: &ResultType) -> (r: bool)
        ensures
            r <==> self@ == other@,
    {
        if self.0.len() != other.0.len() {
            return false;
        }
        let mut i: usize = 0;
        while i < self.0.len()
            invariant
                self@.len() == other@.len(),
                i <= self@.len(),
                self@.subrange(0, i as int) == other@.subrange(0, i as int),
            decreases self@.len() - i,
        {
            if self.0[i] != other.0[i] {
                assert(self@[i as int] != other@[i as int]);
                return false;
            }
            assert(self@.subrange(0, i + 1) == self@.subrange(0, i as int).push(self@[i as int]));
            assert(other@.subrange(0, i + 1) == other@.subrange(0, i as int).push(
                other@[i as int],
            ));
            i = i + 1;
        }
        assert(self@ == self@.subrange(0, i as int));
        assert(other@ == other@.subrange(0, i as int));
        true
    }

    /// A copy of this result type.
    pub fn copy(&self) -> (r: ResultType)
        ensures
            r@ == self@,
    {
        let mut v = Vec::new();
        let mut i: usize = 0;
        while i < self.0.len()
            invariant
                i <= self@.len(),
                v@ == self@.subrange(0, i as int),
            decreases self@.len() - i,
        {
            v.push(self.0[i]);
            i = i + 1;
        }
        assert(v@ == self@);
        ResultType(v)
    }
}

impl FuncType {
    /// Whether two function types are equal.
    pub fn same(&self, other: &FuncType) -> (r: bool)
        ensures
            r <==> (self@.params == other@.params && self@.results == other@.results),
    {
        self.params.same(&other.params) && self.results.same(&other.results)
    }

    /// A copy of this function type.
    pub fn copy(&self) -> (r: FuncType)
        ensures
            r@ == self@,
    {
        FuncType { params: self.params.copy(), results: self.results.copy() }
    }
}

impl Limits {
    pub open spec fn spec_valid(self, k: u32) -> bool {
        self.min <= self.max && self.max <= k
    }

    pub open spec fn spec_matches(self, other: Limits) -> bool {
        self.min >= other.min && self.max <= other.max
    }

    /// Whether the limits are well-formed and within `k`.
    pub fn valid(&self, k: u32) -> (r: bool)
        ensures
            r == self.spec_valid(k),
    {
        self.min <= self.max && self.max <= k
    }

    /// Whether these limits are a sub-range of `other`.
    pub fn matches(self, other: Limits) -> (r: bool)
        ensures
            r == self.spec_matches(other),
    {
        self.min >= other.min && self.max <= other.max
    }
}

/// Limits matching is reflexive.
pub proof fn lemma_limits_matches_reflexive(l: Limits)
    ensures
        l.spec_matches(l),
{
}

/// Limits matching is transitive.
pub proof fn lemma_limits_matches_transitive(a: Limits, b: Limits, c: Limits)
    requires
        a.spec_matches(b),
        b.spec_matches(c),
    ensures
        a.spec_matches(c),
{
}

impl ExternType {
    pub open spec fn spec_matches(&self, other: &ExternType) -> bool {
        match (self, other) {
            (ExternType::Func(x), ExternType::Func(y)) => x@ == y@,
            (ExternType::Table(x), ExternType::Table(y)) => x.limits.spec_matches(y.limits)
                && x.item == y.item,
            (ExternType::Mem(t), ExternType::Mem(s)) => t.spec_matches(*s),
            (ExternType::Global(x), ExternType::Global(y)) => x == y,
            _ => false,
        }
    }

    /// Whether an external value of type `self` can be used where `other` is expected.
    pub fn matches(&self, other: &ExternType) -> (r: bool)
        ensures
            r == self.spec_matches(other),
    {
        match (self, other) {
            (ExternType::Func(x), ExternType::Func(y)) => {
                let r = x.same(y);
                proof {
                    if r {
                        assert(x@ =~= y@);
                    }
                }
                r
            },
            (ExternType::Table(x), ExternType::Table(y)) => x.limits.matches(y.limits) && x.item
                == y.item,
            (ExternType::Mem(t), ExternType::Mem(s)) => t.matches(*s),
            (ExternType::Global(x), ExternType::Global(y)) => *x == *y,
            _ => false,
        }
    }
}

impl NumType {
    pub open spec fn spec_i(n: Nx) -> NumType {
        match n {
            Nx::N32 => NumType::I32,
            Nx::N64 => NumType::I64,
        }
    }

    pub open spec fn spec_f(n: Nx) -> NumType {
        match n {
            Nx::N32 => NumType::F32,
            Nx::N64 => NumType::F64,
        }
    }

    /// The integer type of a width.
    pub fn i(n: Nx) -> (r: NumType)
        ensures
            r == Self::spec_i(n),
    {
        match n {
            Nx::N32 => NumType::I32,
            Nx::N64 => NumType::I64,
        }
    }

    /// The float type of a width.
    pub fn f(n: Nx) -> (r: NumType)
        ensures
            r == Self::spec_f(n),
    {
        match n {
            Nx::N32 => NumType::F32,
            Nx::N64 => NumType::F64,
        }
    }

    pub open spec fn spec_valtype(self) -> ValType {
        match self {
            NumType::I32 => ValType::I32,
            NumType::I64 => ValType::I64,
            NumType::F32 => ValType::F32,
            NumType::F64 => ValType::F64,
        }
    }

    /// The value type of a number type.
    pub fn valtype(self) -> (r: ValType)
        ensures
            r == self.spec_valtype(),
    {
        match self {
            NumType::I32 => ValType::I32,
            NumType::I64 => ValType::I64,
            NumType::F32 => ValType::F32,
            NumType::F64 => ValType::F64,
        }
    }
}

impl RefType {
    pub open spec fn spec_valtype(self) -> ValType {
        match self {
            RefType::FuncRef => ValType::FuncRef,
            RefType::ExternRef => ValType::ExternRef,
        }
    }

    /// The value type of a reference type.
    pub fn valtype(self) -> (r: ValType)
        ensures
            r == self.spec_valtype(),
    {
        match self {
            RefType::FuncRef => ValType::FuncRef,
            RefType::ExternRef => ValType::ExternRef,
        }
    }
}

impl Nx {
    pub open spec fn spec_bits(self) -> usize {
        match self {
            Nx::N32 => 32,
            Nx::N64 => 64,
        }
    }

    /// The number of bits of the width.
    pub fn bits(self) -> (r: usize)
        ensures
            r == self.spec_bits(),
    {
        match self {
            Nx::N32 => 32,
            Nx::N64 => 64,
        }
    }

    pub open spec fn spec_from_u8(x: u8) -> Nx {
        if x == 0 {
            Nx::N32
        } else {
            Nx::N64
        }
    }

    /// Decodes a width index (0 or 1).
    pub fn from_u8(x: u8) -> (r: Nx)
        requires
            x < 2,
        ensures
            r == Self::spec_from_u8(x),
    {
        if x == 0 {
            Nx::N32
        } else {
            Nx::N64
        }
    }
}

impl Bx {
    pub open spec fn spec_nx(self) -> Nx {
        match self {
            Bx::N32B8 | Bx::N32B16 => Nx::N32,
            _ => Nx::N64,
        }
    }

    pub open spec fn spec_bits(self) -> usize {
        match self {
            Bx::N32B8 | Bx::N64B8 => 8,
            Bx::N32B16 | Bx::N64B16 => 16,
            Bx::N64B32 => 32,
        }
    }

    /// The integer width of a packed width.
    pub fn nx(self) -> (r: Nx)
        ensures
            r == self.spec_nx(),
    {
        match self {
            Bx::N32B8 | Bx::N32B16 => Nx::N32,
            Bx::N64B8 | Bx::N64B16 | Bx::N64B32 => Nx::N64,
        }
    }

    /// The memory width in bits of a packed width.
    pub fn bits(self) -> (r: usize)
        ensures
            r == self.spec_bits(),
    {
        match self {
            Bx::N32B8 | Bx::N64B8 => 8,
            Bx::N32B16 | Bx::N64B16 => 16,
            Bx::N64B32 => 32,
        }
    }

    pub open spec fn spec_from_u8(x: u8) -> Bx {
        if x == 0 {
            Bx::N32B8
        } else if x == 1 {
            Bx::N32B16
        } else if x == 2 {
            Bx::N64B8
        } else if x == 3 {
            Bx::N64B16
        } else {
            Bx::N64B32
        }
    }

    /// Decodes a packed width index (0 to 4).
    pub fn from_u8(x: u8) -> (r: Bx)
        requires
            x < 5,
        ensures
            r == Self::spec_from_u8(x),
    {
        match x {
            0 => Bx::N32B8,
            1 => Bx::N32B16,
            2 => Bx::N64B8,
            3 => Bx::N64B16,
            _ => Bx::N64B32,
        }
    }
}

impl Sx {
    pub open spec fn spec_from_u8(x: u8) -> Sx {
        if x == 0 {
            Sx::S
        } else {
            Sx::U
        }
    }

    /// Decodes a signedness index (0 is signed, 1 is unsigned).
    pub fn from_u8(x: u8) -> (r: Sx)
        requires
            x < 2,
        ensures
            r == Self::spec_from_u8(x),
    {
        if x == 0 {
            Sx::S
        } else {
            Sx::U
        }
    }
}

impl CvtOp {
    pub open spec fn spec_dst(self) -> NumType {
        match self {
            CvtOp::Wrap => NumType::I32,
            CvtOp::Extend(_) => NumType::I64,
            CvtOp::Trunc(n, _, _) => NumType::spec_i(n),
            CvtOp::TruncSat(n, _, _) => NumType::spec_i(n),
            CvtOp::Convert(n, _, _) => NumType::spec_f(n),
            CvtOp::Demote => NumType::F32,
            CvtOp::Promote => NumType::F64,
            CvtOp::IReinterpret(n) => NumType::spec_i(n),
            CvtOp::FReinterpret(n) => NumType::spec_f(n),
        }
    }

    pub open spec fn spec_src(self) -> NumType {
        match self {
            CvtOp::Wrap => NumType::I64,
            CvtOp::Extend(_) => NumType::I32,
            CvtOp::Trunc(_, m, _) => NumType::spec_f(m),
            CvtOp::TruncSat(_, m, _) => NumType::spec_f(m),
            CvtOp::Convert(_, m, _) => NumType::spec_i(m),
            CvtOp::Demote => NumType::F64,
            CvtOp::Promote => NumType::F32,
            CvtOp::IReinterpret(n) => NumType::spec_f(n),
            CvtOp::FReinterpret(n) => NumType::spec_i(n),
        }
    }

    /// The type of the result of the conversion.
    pub fn dst(&self) -> (r: NumType)
        ensures
            r == self.spec_dst(),
    {
        match *self {
            CvtOp::Wrap => NumType::I32,
            CvtOp::Extend(_) => NumType::I64,
            CvtOp::Trunc(n, _, _) => NumType::i(n),
            CvtOp::TruncSat(n, _, _) => NumType::i(n),
            CvtOp::Convert(n, _, _) => NumType::f(n),
            CvtOp::Demote => NumType::F32,
            CvtOp::Promote => NumType::F64,
            CvtOp::IReinterpret(n) => NumType::i(n),
            CvtOp::FReinterpret(n) => NumType::f(n),
        }
    }

    /// The type of the operand of the conversion.
    pub fn src(&self) -> (r: NumType)
        ensures
            r == self.spec_src(),
    {
        match *self {
            CvtOp::Wrap => NumType::I64,
            CvtOp::Extend(_) => NumType::I32,
            CvtOp::Trunc(_, m, _) => NumType::f(m),
            CvtOp::TruncSat(_, m, _) => NumType::f(m),
            CvtOp::Convert(_, m, _) => NumType::i(m),
            CvtOp::Demote => NumType::F64,
            CvtOp::Promote => NumType::F32,
            CvtOp::IReinterpret(n) => NumType::f(n),
            CvtOp::FReinterpret(n) => NumType::i(n),
        }
    }
}

// ---------------------------------------------------------------------------------------------
// Decoding of operator indices.

impl IRelOp {
    pub open spec fn spec_from_u8(x: u8) -> IRelOp {
        if x == 0 {
            IRelOp::Eq
        } else if x == 1 {
            IRelOp::Ne
        } else if x <= 3 {
            IRelOp::Lt(Sx::spec_from_u8((x - 2) as u8))
        } else if x <= 5 {
            IRelOp::Gt(Sx::spec_from_u8((x - 4) as u8))
        } else if x <= 7 {
            IRelOp::Le(Sx::spec_from_u8((x - 6) as u8))
        } else {
            IRelOp::Ge(Sx::spec_from_u8((x - 8) as u8))
        }
    }

    /// Decodes a relational operator index (0 to 9).
    pub fn from_u8(x: u8) -> (r: IRelOp)
        requires
            x < 10,
        ensures
            r == Self::spec_from_u8(x),
    {
        if x == 0 {
            IRelOp::Eq
        } else if x == 1 {
            IRelOp::Ne
        } else if x <= 3 {
            IRelOp::Lt(Sx::from_u8(x - 2))
        } else if x <= 5 {
            IRelOp::Gt(Sx::from_u8(x - 4))
        } else if x <= 7 {
            IRelOp::Le(Sx::from_u8(x - 6))
        } else {
            IRelOp::Ge(Sx::from_u8(x - 8))
        }
    }
}

impl IUnOp {
    pub open spec fn spec_from_u8(x: u8) -> IUnOp {
        if x == 0 {
            IUnOp::Clz
        } else if x == 1 {
            IUnOp::Ctz
        } else {
            IUnOp::PopCnt
        }
    }

    /// Decodes a unary operator index (0 to 2).
    pub fn from_u8(x: u8) -> (r: IUnOp)
        requires
            x < 3,
        ensures
            r == Self::spec_from_u8(x),
    {
        if x == 0 {
            IUnOp::Clz
        } else if x == 1 {
            IUnOp::Ctz
        } else {
            IUnOp::PopCnt
        }
    }
}

impl IBinOp {
    pub open spec fn spec_from_u8(x: u8) -> IBinOp {
        if x == 0 {
            IBinOp::Add
        } else if x == 1 {
            IBinOp::Sub
        } else if x == 2 {
            IBinOp::Mul
        } else if x <= 4 {
            IBinOp::Div(Sx::spec_from_u8((x - 3) as u8))
        } else if x <= 6 {
            IBinOp::Rem(Sx::spec_from_u8((x - 5) as u8))
        } else if x == 7 {
            IBinOp::And
        } else if x == 8 {
            IBinOp::Or
        } else if x == 9 {
            IBinOp::Xor
        } else if x == 10 {
            IBinOp::Shl
        } else if x <= 12 {
            IBinOp::Shr(Sx::spec_from_u8((x - 11) as u8))
        } else if x == 13 {
            IBinOp::Rotl
        } else {
            IBinOp::Rotr
        }
    }

    /// Decodes a binary operator index (0 to 14).
    pub fn from_u8(x: u8) -> (r: IBinOp)
        requires
            x < 15,
        ensures
            r == Self::spec_from_u8(x),
    {
        if x == 0 {
            IBinOp::Add
        } else if x == 1 {
            IBinOp::Sub
        } else if x == 2 {
            IBinOp::Mul
        } else if x <= 4 {
            IBinOp::Div(Sx::from_u8(x - 3))
        } else if x <= 6 {
            IBinOp::Rem(Sx::from_u8(x - 5))
        } else if x == 7 {
            IBinOp::And
        } else if x == 8 {
            IBinOp::Or
        } else if x == 9 {
            IBinOp::Xor
        } else if x == 10 {
            IBinOp::Shl
        } else if x <= 12 {
            IBinOp::Shr(Sx::from_u8(x - 11))
        } else if x == 13 {
            IBinOp::Rotl
        } else {
            IBinOp::Rotr
        }
    }
}

impl FRelOp {
    pub open spec fn spec_from_u8(x: u8) -> FRelOp {
        if x == 0 {
            FRelOp::Eq
        } else if x == 1 {
            FRelOp::Ne
        } else if x == 2 {
            FRelOp::Lt
        } else if x == 3 {
            FRelOp::Gt
        } else if x == 4 {
            FRelOp::Le
        } else {
            FRelOp::Ge
        }
    }

    /// Decodes a float relational operator index (0 to 5).
    pub fn from_u8(x: u8) -> (r: FRelOp)
        requires
            x < 6,
        ensures
            r == Self::spec_from_u8(x),
    {
        match x {
            0 => FRelOp::Eq,
            1 => FRelOp::Ne,
            2 => FRelOp::Lt,
            3 => FRelOp::Gt,
            4 => FRelOp::Le,
            _ => FRelOp::Ge,
        }
    }
}

impl FUnOp {
    pub open spec fn spec_from_u8(x: u8) -> FUnOp {
        if x == 0 {
            FUnOp::Abs
        } else if x == 1 {
            FUnOp::Neg
        } else if x == 2 {
            FUnOp::Ceil
        } else if x == 3 {
            FUnOp::Floor
        } else if x == 4 {
            FUnOp::Trunc
        } else if x == 5 {
            FUnOp::Nearest
        } else {
            FUnOp::Sqrt
        }
    }

    /// Decodes a float unary operator index (0 to 6).
    pub fn from_u8(x: u8) -> (r: FUnOp)
        requires
            x < 7,
        ensures
            r == Self::spec_from_u8(x),
    {
        match x {
            0 => FUnOp::Abs,
            1 => FUnOp::Neg,
            2 => FUnOp::Ceil,
            3 => FUnOp::Floor,
            4 => FUnOp::Trunc,
            5 => FUnOp::Nearest,
            _ => FUnOp::Sqrt,
        }
    }
}

impl FBinOp {
    pub open spec fn spec_from_u8(x: u8) -> FBinOp {
        if x == 0 {
            FBinOp::Add
        } else if x == 1 {
            FBinOp::Sub
        } else if x == 2 {
            FBinOp::Mul
        } else if x == 3 {
            FBinOp::Div
        } else if x == 4 {
            FBinOp::Min
        } else if x == 5 {
            FBinOp::Max
        } else {
            FBinOp::CopySign
        }
    }

    /// Decodes a float binary operator index (0 to 6).
    pub fn from_u8(x: u8) -> (r: FBinOp)
        requires
            x < 7,
        ensures
            r == Self::spec_from_u8(x),
    {
        match x {
            0 => FBinOp::Add,
            1 => FBinOp::Sub,
            2 => FBinOp::Mul,
            3 => FBinOp::Div,
            4 => FBinOp::Min,
            5 => FBinOp::Max,
            _ => FBinOp::CopySign,
        }
    }
}

} // verus!
