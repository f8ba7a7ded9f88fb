//! Validation of WebAssembly modules and computation of their side table.
use vstd::prelude::*;

use crate::error::{check, spec_check, invalid, unsupported, Error, Unsupported};
use crate::parser::{
    same_input, spec_byte_enum, spec_import, spec_instr, spec_name, spec_u32, spec_u32s, InstrView, Parser,
};
use crate::format::{append, lemma_leb128_round_trip, section, spec_leb128_encode, spec_section};
use crate::module::spec_find_section;
use crate::side_table::{
    BranchTableEntry, BranchTableEntryView, MetadataEntry, entry_in_range, encode_entry,
    lemma_serialize_len, serializable, serialize, spec_serialize, SECTION_NAME,
};
use vstd::string::StringSliceAdditionalSpecFns;
use vstd::utf8::valid_utf8;
use crate::syntax::{
    ExportDesc, FuncType, GlobalType, ImportDesc, Instr, MemType, Mut, NumType, RefType, SectionId,
    TableType, TypeIdx, ValType, MEM_MAX, TABLE_MAX,
};

verus! {

// ---------------------------------------------------------------------------------------------
// Operand types.

/// The type of an operand on the validation stack: a value type or the unknown type.
#[derive(Debug, Copy, Clone, PartialEq, Eq, Structural)]
pub enum OpdType {
    Bottom,
    I32,
    I64,
    F32,
    F64,
    V128,
    FuncRef,
    ExternRef,
}

/// The operand type of a value type.
pub open spec fn opd(t: ValType) -> OpdType {
    match t {
        ValType::I32 => OpdType::I32,
        ValType::I64 => OpdType::I64,
        ValType::F32 => OpdType::F32,
        ValType::F64 => OpdType::F64,
        ValType::V128 => OpdType::V128,
        ValType::FuncRef => OpdType::FuncRef,
        ValType::ExternRef => OpdType::ExternRef,
    }
}

/// The operand types of a sequence of value types.
pub open spec fn opds(ts: Seq<ValType>) -> Seq<OpdType> {
    ts.map_values(|t: ValType| opd(t))
}

impl OpdType {
    pub fn from_valtype(t: ValType) -> (r: OpdType)
        ensures
            r == opd(t),
    {
        match t {
            ValType::I32 => OpdType::I32,
            ValType::I64 => OpdType::I64,
            ValType::F32 => OpdType::F32,
            ValType::F64 => OpdType::F64,
            ValType::V128 => OpdType::V128,
            ValType::FuncRef => OpdType::FuncRef,
            ValType::ExternRef => OpdType::ExternRef,
        }
    }

    pub open spec fn spec_matches(self, other: ValType) -> bool {
        self == OpdType::Bottom || self == opd(other)
    }

    /// Whether an operand of this type may be used where `other` is expected.
    pub fn matches(self, other: ValType) -> (r: bool)
        ensures
            r == self.spec_matches(other),
    {
        self == OpdType::Bottom || self == OpdType::from_valtype(other)
    }

    pub open spec fn spec_unify(self, other: OpdType) -> Option<OpdType> {
        if self == OpdType::Bottom {
            Some(other)
        } else if other == OpdType::Bottom || self == other {
            Some(self)
        } else {
            None
        }
    }

    /// The most precise type of both operand types, if they are compatible.
    pub fn unify(self, other: OpdType) -> (r: Result<OpdType, Error>)
        ensures
            match self.spec_unify(other) {
                Some(t) => r == Ok::<OpdType, Error>(t),
                None => r == Err::<OpdType, Error>(Error::Invalid),
            },
    {
        if self == OpdType::Bottom {
            Ok(other)
        } else if other == OpdType::Bottom || self == other {
            Ok(self)
        } else {
            Err(invalid())
        }
    }

    pub open spec fn spec_is_num(self) -> bool {
        self is Bottom || self is I32 || self is I64 || self is F32 || self is F64
    }

    pub fn is_num(self) -> (r: bool)
        ensures
            r == self.spec_is_num(),
    {
        matches!(
            self,
            OpdType::Bottom | OpdType::I32 | OpdType::I64 | OpdType::F32 | OpdType::F64
        )
    }

    pub open spec fn spec_is_vec(self) -> bool {
        self is Bottom || self is V128
    }

    pub fn is_vec(self) -> (r: bool)
        ensures
            r == self.spec_is_vec(),
    {
        matches!(self, OpdType::Bottom | OpdType::V128)
    }

    pub open spec fn spec_is_ref(self) -> bool {
        self is Bottom || self is FuncRef || self is ExternRef
    }

    pub fn is_ref(self) -> (r: bool)
        ensures
            r == self.spec_is_ref(),
    {
        matches!(self, OpdType::Bottom | OpdType::FuncRef | OpdType::ExternRef)
    }
}

/// Unification agrees with matching: a unified type matches what both types match.
pub proof fn lemma_unify_matches(a: OpdType, b: OpdType, t: ValType)
    requires
        a.spec_unify(b) is Some,
        a.spec_unify(b)->Some_0.spec_matches(t),
    ensures
        a.spec_matches(t),
        b.spec_matches(t),
{
}

// ---------------------------------------------------------------------------------------------
// Branches of the side table.

/// A branch source or target while validating a function body.
#[derive(Debug, Copy, Clone, PartialEq, Eq, Structural)]
pub struct SideTableBranch {
    /// The position in the module of the instruction after the branch (or of the target).
    pub parser: usize,
    /// The index of the branch table entry of the source, or the next entry for a target.
    pub branch_table: usize,
    /// The height of the value stack in the function.
    pub stack: usize,
    /// The number of values passed to the target (zero for sources).
    pub result: usize,
}

/// The difference between two positions, if it fits in 32 bits.
pub fn delta(source: usize, target: usize) -> (r: Result<i32, Error>)
    ensures
        match r {
            Ok(d) => d == target - source,
            Err(e) => !(i32::MIN <= target - source <= i32::MAX) && e == Error::Unsupported(
                Unsupported::SideTable,
            ),
        },
{
    if target >= source {
        let d = target - source;
        if d > i32::MAX as usize {
            return Err(unsupported(Unsupported::SideTable));
        }
        Ok(d as i32)
    } else {
        let d = source - target;
        if d > 0x8000_0000usize {
            return Err(unsupported(Unsupported::SideTable));
        }
        if d == 0x8000_0000usize {
            Ok(i32::MIN)
        } else {
            Ok(-(d as i32))
        }
    }
}

/// The number of values to drop below the results when taking the branch.
pub open spec fn spec_pop_cnt(source: SideTableBranch, target: SideTableBranch) -> Option<int> {
    let delta = source.stack - (target.stack - target.result);
    if delta < 0 {
        None
    } else if delta < target.result {
        Some(0)
    } else {
        Some(delta - target.result)
    }
}

/// Computes how many values a branch pops.
pub fn pop_cnt(source: SideTableBranch, target: SideTableBranch) -> (r: Result<u32, Error>)
    requires
        target.result <= target.stack,
    ensures
        match spec_pop_cnt(source, target) {
            Some(n) if n <= u32::MAX => r == Ok::<u32, Error>(n as u32),
            _ => r == Err::<u32, Error>(Error::Unsupported(Unsupported::SideTable)),
        },
{
    let base = target.stack - target.result;
    if source.stack < base {
        return Err(unsupported(Unsupported::SideTable));
    }
    let delta = source.stack - base;
    if delta < target.result {
        return Ok(0);
    }
    if delta - target.result > u32::MAX as usize {
        return Err(unsupported(Unsupported::SideTable));
    }
    Ok((delta - target.result) as u32)
}

/// The branch table entry from `source` to `target`, if its fields fit.
pub open spec fn spec_branch_entry(source: SideTableBranch, target: SideTableBranch) -> Option<
    BranchTableEntryView,
> {
    match spec_pop_cnt(source, target) {
        Some(p) => {
            let v = BranchTableEntryView {
                delta_ip: (target.parser - source.parser) as i32,
                delta_stp: (target.branch_table - source.branch_table) as i32,
                val_cnt: target.result as u32,
                pop_cnt: p as u32,
            };
            if i32::MIN <= target.parser - source.parser <= i32::MAX && i32::MIN
                <= target.branch_table - source.branch_table <= i32::MAX && target.result
                <= u32::MAX && p <= u32::MAX && entry_in_range(v) {
                Some(v)
            } else {
                None
            }
        },
        None => None,
    }
}

/// Records in the branch table the entry of `source` for `target`.
pub fn stitch_branch(
    table: &mut Vec<BranchTableEntry>,
    source: SideTableBranch,
    target: SideTableBranch,
) -> (r: Result<(), Error>)
    requires
        source.branch_table < old(table)@.len(),
        target.result <= target.stack,
    ensures
        match spec_branch_entry(source, target) {
            Some(v) => {
                &&& r is Ok
                &&& final(table)@.len() == old(table)@.len()
                &&& forall|i: int|
                    0 <= i < old(table)@.len() && i != source.branch_table ==> #[trigger] final(table)@[i]
                        == old(table)@[i]
                &&& final(table)@[source.branch_table as int].bytes() == encode_entry(v)
            },
            None => r == Err::<(), Error>(Error::Unsupported(Unsupported::SideTable))
                && final(table)@ == old(table)@,
        },
{
    let delta_ip = delta(source.parser, target.parser)?;
    let delta_stp = delta(source.branch_table, target.branch_table)?;
    if target.result > u32::MAX as usize {
        return Err(unsupported(Unsupported::SideTable));
    }
    let val_cnt = target.result as u32;
    let pop_cnt = pop_cnt(source, target)?;
    let entry = BranchTableEntry::new(BranchTableEntryView { delta_ip, delta_stp, val_cnt, pop_cnt })?;
    table.set(source.branch_table, entry);
    Ok(())
}

// ---------------------------------------------------------------------------------------------
// The validation context.

/// What is known of a module while validating it.
pub struct Context {
    pub types: Vec<FuncType>,
    pub funcs: Vec<TypeIdx>,
    pub tables: Vec<TableType>,
    pub mems: Vec<MemType>,
    pub globals: Vec<GlobalType>,
    pub elems: Vec<RefType>,
    pub datas: Option<usize>,
}

impl Context {
    /// Each function has a known type.
    pub open spec fn wf(&self) -> bool {
        forall|i: int| 0 <= i < self.funcs@.len() ==> (#[trigger] self.funcs@[i]) < self.types@.len()
    }

    /// The context of an empty module.
    pub fn new() -> (r: Context)
        ensures
            r.wf(),
            r.types@.len() == 0,
            r.funcs@.len() == 0,
            r.tables@.len() == 0,
            r.mems@.len() == 0,
            r.globals@.len() == 0,
            r.elems@.len() == 0,
            r.datas is None,
    {
        Context {
            types: Vec::new(),
            funcs: Vec::new(),
            tables: Vec::new(),
            mems: Vec::new(),
            globals: Vec::new(),
            elems: Vec::new(),
            datas: None,
        }
    }

    /// The same context, but for the functions.
    pub open spec fn same_but_funcs(&self, other: &Context) -> bool {
        &&& self.types@ == other.types@
        &&& self.tables@ == other.tables@
        &&& self.mems@ == other.mems@
        &&& self.globals@ == other.globals@
        &&& self.elems@ == other.elems@
        &&& self.datas == other.datas
    }

    /// Adds a function of type `x`, which must exist.
    pub fn add_functype(&mut self, x: TypeIdx) -> (r: Result<(), Error>)
        requires
            old(self).wf(),
        ensures
            final(self).wf(),
            final(self).same_but_funcs(old(self)),
            match r {
                Ok(()) => x < old(self).types@.len() && final(self).funcs@ == old(self).funcs@.push(x),
                Err(e) => x >= old(self).types@.len() && e == Error::Invalid && final(self).funcs@
                    == old(self).funcs@,
            },
    {
        check((x as usize) < self.types.len())?;
        self.funcs.push(x);
        Ok(())
    }

    /// Adds a table, whose limits must be valid.
    pub fn add_tabletype(&mut self, t: TableType) -> (r: Result<(), Error>)
        ensures
            final(self).types@ == old(self).types@,
            final(self).funcs@ == old(self).funcs@,
            final(self).mems@ == old(self).mems@,
            final(self).globals@ == old(self).globals@,
            final(self).elems@ == old(self).elems@,
            final(self).datas == old(self).datas,
            match r {
                Ok(()) => t.limits.spec_valid(TABLE_MAX) && final(self).tables@ == old(self).tables@.push(t),
                Err(e) => !t.limits.spec_valid(TABLE_MAX) && e == Error::Invalid && final(self).tables@ == old(self).tables@,
            },
    {
        check(t.limits.valid(TABLE_MAX))?;
        self.tables.push(t);
        Ok(())
    }

    /// Adds a memory, whose limits must be valid.
    pub fn add_memtype(&mut self, m: MemType) -> (r: Result<(), Error>)
        ensures
            final(self).types@ == old(self).types@,
            final(self).funcs@ == old(self).funcs@,
            final(self).tables@ == old(self).tables@,
            final(self).globals@ == old(self).globals@,
            final(self).elems@ == old(self).elems@,
            final(self).datas == old(self).datas,
            match r {
                Ok(()) => m.spec_valid(MEM_MAX) && final(self).mems@ == old(self).mems@.push(m),
                Err(e) => !m.spec_valid(MEM_MAX) && e == Error::Invalid && final(self).mems@ == old(self).mems@,
            },
    {
        check(m.valid(MEM_MAX))?;
        self.mems.push(m);
        Ok(())
    }

    /// Adds a global.
    pub fn add_globaltype(&mut self, g: GlobalType)
        ensures
            final(self).types@ == old(self).types@,
            final(self).funcs@ == old(self).funcs@,
            final(self).tables@ == old(self).tables@,
            final(self).mems@ == old(self).mems@,
            final(self).elems@ == old(self).elems@,
            final(self).datas == old(self).datas,
            final(self).globals@ == old(self).globals@.push(g),
    {
        self.globals.push(g);
    }

    /// Adds what an import description declares.
    pub fn add_importdesc(&mut self, desc: ImportDesc) -> (r: Result<(), Error>)
        requires
            old(self).wf(),
        ensures
            final(self).wf(),
            final(self).types@ == old(self).types@,
            final(self).elems@ == old(self).elems@,
            final(self).datas == old(self).datas,
            !(desc is Func) ==> final(self).funcs@ == old(self).funcs@,
            !(desc is Table) ==> final(self).tables@ == old(self).tables@,
            !(desc is Mem) ==> final(self).mems@ == old(self).mems@,
            !(desc is Global) ==> final(self).globals@ == old(self).globals@,
            Context::desc_added(*old(self), *final(self), desc, r),
    {
        match desc {
            ImportDesc::Func(x) => self.add_functype(x),
            ImportDesc::Table(t) => self.add_tabletype(t),
            ImportDesc::Mem(m) => self.add_memtype(m),
            ImportDesc::Global(g) => {
                self.add_globaltype(g);
                Ok(())
            },
        }
    }

    /// Whether `b` and `r` are the outcome of adding what the import description `desc` declares
    /// to `a`: a function of a known type, a table or memory of valid limits, or a global.
    pub open spec fn desc_added(a: Context, b: Context, desc: ImportDesc, r: Result<(), Error>) -> bool {
        &&& b.wf()
        &&& b.types@ == a.types@
        &&& b.elems@ == a.elems@
        &&& b.datas == a.datas
        &&& !(desc is Func) ==> b.funcs@ == a.funcs@
        &&& !(desc is Table) ==> b.tables@ == a.tables@
        &&& !(desc is Mem) ==> b.mems@ == a.mems@
        &&& !(desc is Global) ==> b.globals@ == a.globals@
        &&& match desc {
            ImportDesc::Func(x) => match r {
                Ok(()) => x < a.types@.len() && b.funcs@ == a.funcs@.push(x),
                Err(e) => x >= a.types@.len() && e == Error::Invalid,
            },
            ImportDesc::Table(t) => match r {
                Ok(()) => t.limits.spec_valid(TABLE_MAX) && b.tables@ == a.tables@.push(t),
                Err(e) => !t.limits.spec_valid(TABLE_MAX) && e == Error::Invalid,
            },
            ImportDesc::Mem(m) => match r {
                Ok(()) => m.spec_valid(MEM_MAX) && b.mems@ == a.mems@.push(m),
                Err(e) => !m.spec_valid(MEM_MAX) && e == Error::Invalid,
            },
            ImportDesc::Global(g) => r is Ok && b.globals@ == a.globals@.push(g),
        }
    }

    /// Parses an import (module name, name, description) and adds it.
    pub fn add_import(&mut self, parser: &mut Parser) -> (r: Result<(), Error>)
        requires
            old(self).wf(),
            old(parser).wf(),
        ensures
            final(self).wf(),
            same_input(*old(parser), *final(parser)),
            final(self).types@ == old(self).types@,
            final(self).elems@ == old(self).elems@,
            final(self).datas == old(self).datas,
            match spec_import(old(parser).rest()) {
                Some((m, x, d, n)) => final(parser).pos() == old(parser).pos() + n && Context::desc_added(
                    *old(self),
                    *final(self),
                    d,
                    r,
                ),
                None => r is Err,
            },
    {
        let ghost s = old(parser).rest();
        proof {
            old(parser).lemma_wf();
        }
        parser.parse_name()?;
        let ghost p1 = *parser;
        proof {
            parser.lemma_wf();
            assert(parser.rest() =~= s.skip(parser.pos() - old(parser).pos()));
        }
        parser.parse_name()?;
        proof {
            parser.lemma_wf();
            p1.lemma_wf();
            assert(parser.rest() =~= s.skip(parser.pos() - old(parser).pos()));
        }
        let desc = parser.parse_importdesc()?;
        proof {
            parser.lemma_wf();
        }
        self.add_importdesc(desc)
    }

    /// The number of items of the kind of an export description.
    pub open spec fn export_bound(&self, desc: ExportDesc) -> int {
        match desc {
            ExportDesc::Func(_) => self.funcs@.len() as int,
            ExportDesc::Table(_) => self.tables@.len() as int,
            ExportDesc::Mem(_) => self.mems@.len() as int,
            ExportDesc::Global(_) => self.globals@.len() as int,
        }
    }

    /// The index of an export description.
    pub open spec fn export_index(desc: ExportDesc) -> u32 {
        match desc {
            ExportDesc::Func(x) => x,
            ExportDesc::Table(x) => x,
            ExportDesc::Mem(x) => x,
            ExportDesc::Global(x) => x,
        }
    }

    /// Checks that an export refers to an existing item.
    pub fn check_exportdesc(&self, desc: &ExportDesc) -> (r: Result<(), Error>)
        ensures
            r == spec_check(Self::export_index(*desc) < self.export_bound(*desc)),
    {
        let (x, n) = match desc {
            ExportDesc::Func(x) => (*x, self.funcs.len()),
            ExportDesc::Table(x) => (*x, self.tables.len()),
            ExportDesc::Mem(x) => (*x, self.mems.len()),
            ExportDesc::Global(x) => (*x, self.globals.len()),
        };
        check((x as usize) < n)
    }

    /// The type at index `x`.
    pub fn type_(&self, x: TypeIdx) -> (r: Result<FuncType, Error>)
        ensures
            match r {
                Ok(t) => x < self.types@.len() && t@ == self.types@[x as int]@,
                Err(e) => x >= self.types@.len() && e == Error::Invalid,
            },
    {
        if (x as usize) < self.types.len() {
            Ok(self.types[x as usize].copy())
        } else {
            Err(invalid())
        }
    }

    /// The type of the function at index `x`.
    pub fn functype(&self, x: u32) -> (r: Result<FuncType, Error>)
        ensures
            match r {
                Ok(t) => x < self.funcs@.len() && self.funcs@[x as int] < self.types@.len() && t@
                    == self.types@[self.funcs@[x as int] as int]@,
                Err(e) => (x >= self.funcs@.len() || self.funcs@[x as int] >= self.types@.len()) && e
                    == Error::Invalid,
            },
    {
        if (x as usize) < self.funcs.len() {
            self.type_(self.funcs[x as usize])
        } else {
            Err(invalid())
        }
    }

    /// The table at index `x`.
    pub fn table(&self, x: u32) -> (r: Result<TableType, Error>)
        ensures
            match r {
                Ok(t) => x < self.tables@.len() && t == self.tables@[x as int],
                Err(e) => x >= self.tables@.len() && e == Error::Invalid,
            },
    {
        if (x as usize) < self.tables.len() {
            Ok(self.tables[x as usize])
        } else {
            Err(invalid())
        }
    }

    /// The memory at index `x`.
    pub fn mem(&self, x: u32) -> (r: Result<MemType, Error>)
        ensures
            match r {
                Ok(m) => x < self.mems@.len() && m == self.mems@[x as int],
                Err(e) => x >= self.mems@.len() && e == Error::Invalid,
            },
    {
        if (x as usize) < self.mems.len() {
            Ok(self.mems[x as usize])
        } else {
            Err(invalid())
        }
    }

    /// The global at index `x`.
    pub fn global(&self, x: u32) -> (r: Result<GlobalType, Error>)
        ensures
            match r {
                Ok(g) => x < self.globals@.len() && g == self.globals@[x as int],
                Err(e) => x >= self.globals@.len() && e == Error::Invalid,
            },
    {
        if (x as usize) < self.globals.len() {
            Ok(self.globals[x as usize])
        } else {
            Err(invalid())
        }
    }

    /// The type of the element segment at index `x`.
    pub fn elem(&self, x: u32) -> (r: Result<RefType, Error>)
        ensures
            match r {
                Ok(t) => x < self.elems@.len() && t == self.elems@[x as int],
                Err(e) => x >= self.elems@.len() && e == Error::Invalid,
            },
    {
        if (x as usize) < self.elems.len() {
            Ok(self.elems[x as usize])
        } else {
            Err(invalid())
        }
    }

    /// Checks that the data segment at index `x` exists (the data count section is required).
    pub fn data(&self, x: u32) -> (r: Result<(), Error>)
        ensures
            r == spec_check(self.datas matches Some(n) && x < n),
    {
        match self.datas {
            Some(n) => check((x as usize) < n),
            None => Err(invalid()),
        }
    }
}

/// Whether the remaining bytes start with the header of a section `id`, other than custom,
/// that may not come before a section `expected`.
pub open spec fn next_section_after(rest: Seq<u8>, expected: SectionId) -> bool {
    &&& rest.len() > 0
    &&& crate::syntax::section_id_from_byte(rest[0]) matches Some(id)
    &&& id != SectionId::Custom
    &&& expected.spec_order() < id.spec_order()
}

/// The content of the section `expected` at the start of `s` after custom sections (which must
/// have a name), or none if the next section comes after it or there are none, with the number of
/// bytes up to there; none if the sections are ill-formed or a section that should come before
/// `expected` is found.
pub open spec fn spec_check_section(s: Seq<u8>, expected: SectionId) -> Option<(Option<Seq<u8>>, nat)>
    decreases s.len(),
{
    if s.len() == 0 {
        Some((None, 0))
    } else {
        match spec_byte_enum::<SectionId>(s) {
            Err(_) => None,
            Ok((id, n0)) => if id != SectionId::Custom && expected.spec_order() < id.spec_order() {
                Some((None, 0))
            } else if id != SectionId::Custom && expected.spec_order() > id.spec_order() {
                None
            } else {
                let t = s.skip(n0 as int);
                match spec_u32(t) {
                    Err(_) => None,
                    Ok((len, n1)) => if n0 + n1 + len > s.len() {
                        None
                    } else if id != SectionId::Custom {
                        Some((Some(t.subrange(n1 as int, n1 + len)), (n0 + n1 + len) as nat))
                    } else if spec_name(t.subrange(n1 as int, n1 + len)) is Ok {
                        match spec_check_section(t.skip(n1 + len), expected) {
                            Some((c, m)) => Some((c, (n0 + n1 + len + m) as nat)),
                            None => None,
                        }
                    } else {
                        None
                    },
                }
            },
        }
    }
}

/// Whether `r` and `p1` are the outcome of looking for the section `expected` from `p0`, as
/// `spec_check_section` says.
#[verifier::opaque]
pub open spec fn section_checked<'m>(
    p0: Parser<'m>,
    p1: Parser<'m>,
    expected: SectionId,
    r: Result<Option<Parser<'m>>, Error>,
) -> bool {
    match spec_check_section(p0.rest(), expected) {
        Some((Some(c), n)) => r matches Ok(Some(p)) && p.rest() == c && p1.pos() == p0.pos() + n,
        Some((None, n)) => r matches Ok(None) && p1.pos() == p0.pos() + n,
        None => r is Err,
    }
}

/// Skips custom sections, then returns the content of the next section if it is `expected`.
#[verifier::rlimit(100)]
#[verifier::spinoff_prover]
pub fn check_section<'m>(parser: &mut Parser<'m>, expected: SectionId) -> (r: Result<
    Option<Parser<'m>>,
    Error,
>)
    requires
        old(parser).wf(),
    ensures
        same_input(*old(parser), *final(parser)),
        match r {
            Ok(Some(p)) => {
                &&& p.wf()
                &&& p.source() == old(parser).source()
                &&& old(parser).pos() < p.pos() <= p.limit()
                &&& p.limit() == final(parser).pos()
            },
            Ok(None) => final(parser).rest().len() == 0 || next_section_after(
                final(parser).rest(),
                expected,
            ),
            Err(_) => true,
        },
        section_checked(*old(parser), *final(parser), expected, r),
{
    let ghost s0 = old(parser).rest();
    proof {
        old(parser).lemma_wf();
        assert(s0.skip(0) =~= s0);
    }
    loop
        invariant
            same_input(*old(parser), *parser),
            old(parser).wf(),
            s0 == old(parser).rest(),
            parser.pos() >= old(parser).pos(),
            parser.rest() == s0.skip(parser.pos() - old(parser).pos()),
            spec_check_section(s0, expected) == match spec_check_section(parser.rest(), expected) {
                Some((c, m)) => Some((c, (m + (parser.pos() - old(parser).pos())) as nat)),
                None => None,
            },
        decreases parser.rest().len(),
    {
        proof {
            reveal(section_checked);
            parser.lemma_wf();
            old(parser).lemma_wf();
        }
        if parser.is_empty() {
            return Ok(None);
        }
        let saved = parser.save();
        let mut next = parser.save();
        let ghost s = parser.rest();
        let ghost pos0 = parser.pos();
        let id = next.parse_section_id()?;
        proof {
            reveal(section_checked);
            parser.lemma_wf();
            next.lemma_wf();
            assert(next.rest() =~= s.skip(1));
            assert(next.rest() =~= s0.skip(next.pos() - old(parser).pos()));
        }
        if id != SectionId::Custom {
            let a = expected.order();
            let b = id.order();
            if a < b {
                proof {
                    assert(saved.rest()[0] == old(parser).source()[saved.pos()]);
                }
                return Ok(None);
            } else if a == b {
                parser.restore(next);
                let ghost t = parser.rest();
                let p = parser.split_section()?;
                proof {
                    let (len, n1) = spec_u32(t)->Ok_0;
                    assert(p.rest() =~= t.subrange(n1 as int, n1 + len));
                }
                return Ok(Some(p));
            } else {
                return Err(invalid());
            }
        }
        parser.restore(next);
        let ghost t = parser.rest();
        let mut section = parser.split_section()?;
        proof {
            let (len, n1) = spec_u32(t)->Ok_0;
            assert(section.rest() =~= t.subrange(n1 as int, n1 + len));
            parser.lemma_wf();
            assert(parser.rest() =~= t.skip(n1 + len));
            assert(parser.rest() =~= s0.skip(parser.pos() - old(parser).pos()));
        }
        section.parse_name()?;
    }
}

/// Whether `s` is a sequence of sections (an identifier, a size and that many bytes) in which
/// custom sections have a name and the other sections come in their order, each at most once,
/// after the section at position `last` of that order.
#[verifier::opaque]
pub open spec fn sections_in_order(s: Seq<u8>, last: int) -> bool
    decreases s.len(),
{
    if s.len() == 0 {
        true
    } else {
        match spec_byte_enum::<SectionId>(s) {
            Err(_) => false,
            Ok((id, n0)) => {
                let t = s.skip(n0 as int);
                match spec_u32(t) {
                    Err(_) => false,
                    Ok((len, n1)) => {
                        &&& n0 + n1 + len <= s.len()
                        &&& id == SectionId::Custom ==> spec_name(t.subrange(n1 as int, n1 + len)) is Ok
                        &&& id != SectionId::Custom ==> last < id.spec_order()
                        &&& sections_in_order(
                            t.skip(n1 + len),
                            if id == SectionId::Custom {
                                last
                            } else {
                                id.spec_order() as int
                            },
                        )
                    },
                }
            },
        }
    }
}

/// Looking for a section keeps the order of sections: what follows the section found, in order
/// after it, makes the whole in order; and what follows the custom sections that were skipped
/// when none was found makes the whole in order.
#[verifier::rlimit(50)]
#[verifier::spinoff_prover]
proof fn lemma_check_section_in_order(s: Seq<u8>, e: SectionId, last: int)
    requires
        spec_check_section(s, e) is Some,
    ensures
        spec_check_section(s, e) matches Some((_, n)) && n <= s.len(),
        e == SectionId::Custom ==> spec_check_section(s, e) matches Some((None, _)),
        spec_check_section(s, e) matches Some((Some(_), n)) ==> (last < e.spec_order()
            && sections_in_order(s.skip(n as int), e.spec_order() as int) ==> sections_in_order(
            s,
            last,
        )),
        spec_check_section(s, e) matches Some((None, n)) ==> (sections_in_order(
            s.skip(n as int),
            last,
        ) ==> sections_in_order(s, last)),
    decreases s.len(),
{
    reveal(sections_in_order);
    if s.len() == 0 {
        assert(s.skip(0) =~= s);
    } else {
        let (id, n0) = spec_byte_enum::<SectionId>(s)->Ok_0;
        let t = s.skip(n0 as int);
        if id != SectionId::Custom && e.spec_order() < id.spec_order() {
            assert(s.skip(0) =~= s);
        } else if id != SectionId::Custom {
            let (len, n1) = spec_u32(t)->Ok_0;
            crate::syntax::lemma_section_order_injective(id, e);
            assert(s.skip(n0 + n1 + len) =~= t.skip(n1 + len));
        } else {
            let (len, n1) = spec_u32(t)->Ok_0;
            let u = t.skip(n1 + len);
            lemma_check_section_in_order(u, e, last);
            let m = spec_check_section(u, e)->Some_0.1;
            assert(s.skip(n0 + n1 + len + m) =~= u.skip(m as int));
        }
    }
}

/// No section is in order.
proof fn lemma_no_sections_in_order(s: Seq<u8>, last: int)
    requires
        s.len() == 0,
    ensures
        sections_in_order(s, last),
{
    reveal(sections_in_order);
}

/// Whether the sections `s0` are in order if the sections `rest` that remain of them are in
/// order after the section at position `last`.
#[verifier::opaque]
spec fn tail_in_order(s0: Seq<u8>, rest: Seq<u8>, last: int) -> bool {
    sections_in_order(rest, last) ==> sections_in_order(s0, 0)
}

proof fn lemma_tail_in_order_start(s0: Seq<u8>)
    ensures
        tail_in_order(s0, s0, 0),
{
    reveal(tail_in_order);
}

proof fn lemma_tail_in_order_end(s0: Seq<u8>, rest: Seq<u8>, last: int)
    requires
        tail_in_order(s0, rest, last),
        rest.len() == 0,
    ensures
        sections_in_order(s0, 0),
{
    reveal(tail_in_order);
    lemma_no_sections_in_order(rest, last);
}

/// Whether `s` is a sequence of custom sections, each an identifier, a size and that many bytes
/// that start with a name.
#[verifier::opaque]
pub open spec fn customs_only(s: Seq<u8>) -> bool
    decreases s.len(),
{
    if s.len() == 0 {
        true
    } else {
        match spec_byte_enum::<SectionId>(s) {
            Err(_) => false,
            Ok((id, n0)) => {
                let t = s.skip(n0 as int);
                match spec_u32(t) {
                    Err(_) => false,
                    Ok((len, n1)) => {
                        &&& id == SectionId::Custom
                        &&& n0 + n1 + len <= s.len()
                        &&& spec_name(t.subrange(n1 as int, n1 + len)) is Ok
                        &&& customs_only(t.skip(n1 + len))
                    },
                }
            },
        }
    }
}

/// Nothing is custom sections only.
proof fn lemma_customs_empty(s: Seq<u8>)
    requires
        s.len() == 0,
    ensures
        customs_only(s),
{
    reveal(customs_only);
}

/// Among custom sections only, looking for any other section finds none.
pub proof fn lemma_customs_find_none(s: Seq<u8>, x: SectionId)
    requires
        customs_only(s),
        x != SectionId::Custom,
    ensures
        spec_find_section(s, x) == Ok::<Option<Seq<u8>>, Error>(None),
    decreases s.len(),
{
    reveal(customs_only);
    if s.len() > 0 {
        let (id, n0) = spec_byte_enum::<SectionId>(s)->Ok_0;
        let t = s.skip(n0 as int);
        let (len, n1) = spec_u32(t)->Ok_0;
        lemma_customs_find_none(t.skip(n1 + len), x);
    }
}

/// Looking for any section among custom sections only skips them all and finds none.
#[verifier::rlimit(50)]
#[verifier::spinoff_prover]
proof fn lemma_check_section_customs(s: Seq<u8>, e: SectionId)
    requires
        customs_only(s),
    ensures
        spec_check_section(s, e) == Some((None::<Seq<u8>>, s.len())),
    decreases s.len(),
{
    reveal(customs_only);
    if s.len() > 0 {
        let (id, n0) = spec_byte_enum::<SectionId>(s)->Ok_0;
        let t = s.skip(n0 as int);
        let (len, n1) = spec_u32(t)->Ok_0;
        lemma_check_section_customs(t.skip(n1 + len), e);
    }
}

/// A call of `check_section` among custom sections only finds none and leaves nothing.
proof fn lemma_customs_step<'m>(
    p0: Parser<'m>,
    p1: Parser<'m>,
    e: SectionId,
    r: Result<Option<Parser<'m>>, Error>,
)
    requires
        p0.wf(),
        same_input(p0, p1),
        section_checked(p0, p1, e, r),
        customs_only(p0.rest()),
    ensures
        r matches Ok(None),
        p1.rest().len() == 0,
        customs_only(p1.rest()),
{
    reveal(section_checked);
    reveal(customs_only);
    p0.lemma_wf();
    p1.lemma_wf();
    lemma_check_section_customs(p0.rest(), e);
}

/// Looking for a section among sections in order: across a call of `check_section` for the
/// section `e`, what was found is what looking for `e` gives, what remains is in order after the
/// last section found, and looking for a later section gives the same before and after.
#[verifier::rlimit(50)]
#[verifier::spinoff_prover]
proof fn lemma_check_section_finds(s: Seq<u8>, e: SectionId, last: int, x: SectionId)
    requires
        sections_in_order(s, last),
        spec_check_section(s, e) is Some,
        e != SectionId::Custom,
        x != SectionId::Custom,
    ensures
        spec_check_section(s, e) matches Some((c, n)) && {
            let next = if c is Some {
                e.spec_order() as int
            } else {
                last
            };
            &&& spec_find_section(s, e) == Ok::<Option<Seq<u8>>, Error>(c)
            &&& sections_in_order(s.skip(n as int), next)
            &&& next < x.spec_order() ==> spec_find_section(s, x) == spec_find_section(
                s.skip(n as int),
                x,
            )
        },
    decreases s.len(),
{
    reveal(sections_in_order);
    if s.len() == 0 {
        assert(s.skip(0) =~= s);
    } else {
        let (id, n0) = spec_byte_enum::<SectionId>(s)->Ok_0;
        let t = s.skip(n0 as int);
        let (len, n1) = spec_u32(t)->Ok_0;
        if id != SectionId::Custom && e.spec_order() < id.spec_order() {
            assert(s.skip(0) =~= s);
        } else if id != SectionId::Custom {
            crate::syntax::lemma_section_order_injective(id, e);
            crate::syntax::lemma_section_order_injective(id, x);
            assert(s.skip(n0 + n1 + len) =~= t.skip(n1 + len));
        } else {
            let u = t.skip(n1 + len);
            lemma_check_section_finds(u, e, last, x);
            lemma_check_section_in_order(u, e, last);
            let m = spec_check_section(u, e)->Some_0.1;
            assert(s.skip(n0 + n1 + len + m) =~= u.skip(m as int));
        }
    }
}

/// Whether, if the sections `s0` are in order, the sections `rest` that remain of them are in
/// order after the position `last`, and looking for a section after it in `s0` gives what looking
/// for it in `rest` gives.
#[verifier::opaque]
spec fn finds_from(s0: Seq<u8>, rest: Seq<u8>, last: int) -> bool {
    sections_in_order(s0, 0) ==> {
        &&& sections_in_order(rest, last)
        &&& forall|x: SectionId|
            x != SectionId::Custom && last < x.spec_order() ==> #[trigger] spec_find_section(s0, x)
                == spec_find_section(rest, x)
    }
}

proof fn lemma_finds_from_start(s0: Seq<u8>)
    ensures
        finds_from(s0, s0, 0),
{
    reveal(finds_from);
}

/// Across a call of `check_section` that succeeded, what looking for sections in `s0` gives.
#[verifier::rlimit(30)]
proof fn lemma_find_step<'m>(
    s0: Seq<u8>,
    p0: Parser<'m>,
    p1: Parser<'m>,
    e: SectionId,
    r: Result<Option<Parser<'m>>, Error>,
    last: int,
)
    requires
        p0.wf(),
        same_input(p0, p1),
        section_checked(p0, p1, e, r),
        r is Ok,
        e != SectionId::Custom,
        last < e.spec_order(),
        finds_from(s0, p0.rest(), last),
    ensures
        finds_from(
            s0,
            p1.rest(),
            if r matches Ok(Some(_)) {
                e.spec_order() as int
            } else {
                last
            },
        ),
        sections_in_order(s0, 0) ==> spec_find_section(s0, e) == Ok::<Option<Seq<u8>>, Error>(
            match r {
                Ok(Some(p)) => Some(p.rest()),
                _ => None,
            },
        ),
{
    reveal(section_checked);
    reveal(finds_from);
    p0.lemma_wf();
    p1.lemma_wf();
    let s = p0.rest();
    assert(p1.rest() =~= s.skip(p1.pos() - p0.pos()));
    if sections_in_order(s0, 0) {
        lemma_check_section_finds(s, e, last, e);
        let next = if r matches Ok(Some(_)) {
            e.spec_order() as int
        } else {
            last
        };
        assert forall|x: SectionId|
            x != SectionId::Custom && next < x.spec_order() implies #[trigger] spec_find_section(
            s0,
            x,
        ) == spec_find_section(p1.rest(), x) by {
            lemma_check_section_finds(s, e, last, x);
        }
    }
}

/// The order of sections across a call of `check_section` that succeeded, from the position
/// `p0` to `p1`: returns the position in that order of the last section found.
proof fn lemma_section_step<'m>(
    s0: Seq<u8>,
    p0: Parser<'m>,
    p1: Parser<'m>,
    e: SectionId,
    r: Result<Option<Parser<'m>>, Error>,
    last: int,
) -> (next: int)
    requires
        p0.wf(),
        same_input(p0, p1),
        section_checked(p0, p1, e, r),
        r is Ok,
        r matches Ok(Some(_)) && e != SectionId::Custom ==> last < e.spec_order(),
        tail_in_order(s0, p0.rest(), last),
    ensures
        tail_in_order(s0, p1.rest(), next),
        next == if r matches Ok(Some(_)) {
            e.spec_order() as int
        } else {
            last
        },
{
    reveal(section_checked);
    reveal(tail_in_order);
    p0.lemma_wf();
    p1.lemma_wf();
    assert(p1.rest() =~= p0.rest().skip(p1.pos() - p0.pos()));
    lemma_check_section_in_order(p0.rest(), e, last);
    if r matches Ok(Some(_)) {
        e.spec_order() as int
    } else {
        last
    }
}

// ---------------------------------------------------------------------------------------------
// Validation of expressions.

/// How a label is branched to.
#[derive(Debug, Copy, Clone, PartialEq, Eq, Structural)]
pub enum LabelKind {
    /// A branch goes to the end of the block.
    Block,
    /// A branch goes to the start of the loop, which is the given target.
    Loop(SideTableBranch),
    /// An `else` or `end` is possible, and the given source jumps to it when the condition is false.
    If(SideTableBranch),
}

/// A block being validated.
pub struct Label {
    pub type_: FuncType,
    pub kind: LabelKind,
    /// Whether the bottom of the stack is polymorphic (after an unconditional branch).
    pub polymorphic: bool,
    pub stack: Vec<OpdType>,
    /// The branches to the end of this block, not yet stitched.
    pub branches: Vec<SideTableBranch>,
    /// Total stack length of the enclosing labels of the function.
    pub prev_stack: usize,
}

/// The state of the validation of an expression (a constant expression or a function body).
pub struct Expr {
    /// The number of globals a constant expression may read.
    pub globals_len: usize,
    pub is_const: bool,
    pub is_body: bool,
    pub locals: Vec<ValType>,
    pub labels: Vec<Label>,
    /// The branch table of the function body.
    pub branch_table: Vec<BranchTableEntry>,
}

/// Pops one operand from a stack, given whether its bottom is polymorphic.
pub open spec fn spec_pop1(s: Seq<OpdType>, poly: bool) -> Option<(Seq<OpdType>, OpdType)> {
    if s.len() > 0 {
        Some((s.drop_last(), s.last()))
    } else if poly {
        Some((s, OpdType::Bottom))
    } else {
        None
    }
}

/// Pops operands matching `e` (the last one first).
pub open spec fn spec_pops(s: Seq<OpdType>, poly: bool, e: Seq<ValType>) -> Option<Seq<OpdType>>
    decreases e.len(),
{
    if e.len() == 0 {
        Some(s)
    } else {
        match spec_pop1(s, poly) {
            Some((s2, t)) => if t.spec_matches(e.last()) {
                spec_pops(s2, poly, e.drop_last())
            } else {
                None
            },
            None => None,
        }
    }
}

/// The stack with enough unknown operands at the bottom to hold `n` operands, if allowed.
pub open spec fn spec_fill(s: Seq<OpdType>, poly: bool, n: nat) -> Option<Seq<OpdType>> {
    if n <= s.len() {
        Some(s)
    } else if poly {
        Some(Seq::new((n - s.len()) as nat, |i: int| OpdType::Bottom) + s)
    } else {
        None
    }
}

/// Whether `b` is the label `a` with another stack.
pub open spec fn label_with_stack(a: Label, b: Label, stack: Seq<OpdType>, poly: bool) -> bool {
    &&& b.type_ == a.type_
    &&& b.kind == a.kind
    &&& b.branches == a.branches
    &&& b.prev_stack == a.prev_stack
    &&& b.stack@ == stack
    &&& b.polymorphic == poly
}

/// The operand types matching `e` at the top of `s` unified with them, if they unify.
pub open spec fn spec_swaps(s: Seq<OpdType>, e: Seq<ValType>) -> Option<Seq<OpdType>> {
    let m = s.len() - e.len();
    let top = s.skip(m);
    if forall|i: int| 0 <= i < e.len() ==> (#[trigger] top[i]).spec_unify(opd(e[i])) is Some {
        Some(s.take(m) + Seq::new(e.len(), |i: int| top[i].spec_unify(opd(e[i]))->Some_0))
    } else {
        None
    }
}

/// Whether the operand types at the top of `s` match `e`.
pub open spec fn spec_peeks(s: Seq<OpdType>, e: Seq<ValType>) -> bool {
    let top = s.skip(s.len() - e.len());
    forall|i: int| 0 <= i < e.len() ==> (#[trigger] top[i]).spec_matches(e[i])
}

/// Changing the stack of the innermost label keeps the branches well-formed.
pub proof fn lemma_with_top_wf(a: &Expr, b: &Expr, s: Seq<OpdType>, p: bool)
    requires
        a.wf(),
        a.with_top(b, s, p),
    ensures
        b.wf(),
{
    assert forall|i: int| 0 <= i < b.labels@.len() implies b.labels@[i].kind == a.labels@[i].kind
        && b.labels@[i].branches == a.labels@[i].branches by {
        if i < b.labels@.len() - 1 {
            assert(b.labels@[i] == b.labels@.drop_last()[i]);
            assert(a.labels@[i] == a.labels@.drop_last()[i]);
        }
    }
}

impl Expr {
    /// The innermost label.
    pub open spec fn top(&self) -> Label {
        self.labels@.last()
    }

    /// Whether `new` only differs from `self` by the stack of the innermost label.
    pub open spec fn with_top(&self, new: &Expr, stack: Seq<OpdType>, poly: bool) -> bool {
        &&& new.labels@.len() == self.labels@.len()
        &&& self.labels@.len() > 0
        &&& new.labels@.drop_last() == self.labels@.drop_last()
        &&& label_with_stack(self.top(), new.top(), stack, poly)
        &&& new.same_fields(self)
    }

    /// The fields other than the labels are unchanged.
    pub open spec fn same_fields(&self, other: &Expr) -> bool {
        &&& self.globals_len == other.globals_len
        &&& self.is_const == other.is_const
        &&& self.is_body == other.is_body
        &&& self.locals@ == other.locals@
        &&& self.branch_table@ == other.branch_table@
    }

    /// Whether all the recorded branches point into the branch table.
    pub open spec fn wf(&self) -> bool {
        &&& forall|i: int, j: int|
            0 <= i < self.labels@.len() && 0 <= j < self.labels@[i].branches@.len()
                ==> (#[trigger] self.labels@[i].branches@[j]).branch_table < self.branch_table@.len()
        &&& forall|i: int|
            0 <= i < self.labels@.len() ==> match (#[trigger] self.labels@[i]).kind {
                LabelKind::If(s) => s.branch_table < self.branch_table@.len(),
                LabelKind::Loop(t) => t.result <= t.stack,
                LabelKind::Block => true,
            }
        &&& self.is_const ==> self.labels@.len() <= 1 && forall|i: int|
            0 <= i < self.labels@.len() ==> (#[trigger] self.labels@[i]).kind == LabelKind::Block
                && self.labels@[i].branches@.len() == 0
    }

    /// Starts the validation of an expression whose result has type `results`.
    pub fn new(
        globals_len: usize,
        is_const: bool,
        is_body: bool,
        locals: Vec<ValType>,
        results: crate::syntax::ResultType,
    ) -> (r: Expr)
        ensures
            r.wf(),
            r.globals_len == globals_len,
            r.is_const == is_const,
            r.is_body == is_body,
            r.locals@ == locals@,
            r.branch_table@.len() == 0,
            r.labels@.len() == 1,
            r.top().type_@.params.len() == 0,
            r.top().type_@.results == results@,
            r.top().kind == LabelKind::Block,
            !r.top().polymorphic,
            r.top().stack@.len() == 0,
            r.top().branches@.len() == 0,
            r.top().prev_stack == 0,
    {
        let label = Label {
            type_: FuncType { params: crate::syntax::ResultType::empty(), results },
            kind: LabelKind::Block,
            polymorphic: false,
            stack: Vec::new(),
            branches: Vec::new(),
            prev_stack: 0,
        };
        let mut labels = Vec::new();
        labels.push(label);
        Expr { globals_len, is_const, is_body, locals, labels, branch_table: Vec::new() }
    }

    /// Pops an operand.
    pub fn pop(&mut self) -> (r: Result<OpdType, Error>)
        requires
            old(self).labels@.len() > 0,
        ensures
            match spec_pop1(old(self).top().stack@, old(self).top().polymorphic) {
                Some((s, t)) => r == Ok::<OpdType, Error>(t) && old(self).with_top(
                    final(self),
                    s,
                    old(self).top().polymorphic,
                ),
                None => r == Err::<OpdType, Error>(Error::Invalid) && old(self).with_top(
                    final(self),
                    old(self).top().stack@,
                    old(self).top().polymorphic,
                ),
            },
    {
        let mut label = self.labels.pop().unwrap();
        let r = match label.stack.pop() {
            Some(x) => Ok(x),
            None => if label.polymorphic {
                Ok(OpdType::Bottom)
            } else {
                Err(invalid())
            },
        };
        self.labels.push(label);
        proof {
            assert(self.labels@.drop_last() =~= old(self).labels@.drop_last());
        }
        r
    }

    /// Pushes an operand.
    pub fn push(&mut self, t: OpdType)
        requires
            old(self).labels@.len() > 0,
        ensures
            old(self).with_top(final(self), old(self).top().stack@.push(t), old(self).top().polymorphic),
    {
        let mut label = self.labels.pop().unwrap();
        label.stack.push(t);
        self.labels.push(label);
        proof {
            assert(self.labels@.drop_last() =~= old(self).labels@.drop_last());
        }
    }

    /// Pops an operand of type `t`.
    pub fn pop_check(&mut self, t: ValType) -> (r: Result<(), Error>)
        requires
            old(self).labels@.len() > 0,
        ensures
            old(self).with_top(final(self), final(self).top().stack@, final(self).top().polymorphic),
            match spec_pop1(old(self).top().stack@, old(self).top().polymorphic) {
                Some((s, u)) if u.spec_matches(t) => r is Ok && old(self).with_top(
                    final(self),
                    s,
                    old(self).top().polymorphic,
                ),
                _ => r == Err::<(), Error>(Error::Invalid),
            },
    {
        let u = self.pop()?;
        check(u.matches(t))
    }

    /// Pops operands of types `expected`, the last one first.
    pub fn pops(&mut self, expected: &Vec<ValType>) -> (r: Result<(), Error>)
        requires
            old(self).labels@.len() > 0,
        ensures
            final(self).top().polymorphic == old(self).top().polymorphic,
            old(self).with_top(final(self), final(self).top().stack@, final(self).top().polymorphic),
            match spec_pops(old(self).top().stack@, old(self).top().polymorphic, expected@) {
                Some(s) => r is Ok && old(self).with_top(
                    final(self),
                    s,
                    old(self).top().polymorphic,
                ),
                None => r == Err::<(), Error>(Error::Invalid),
            },
    {
        let ghost e = expected@;
        let ghost poly = old(self).top().polymorphic;
        let mut i = expected.len();
        proof {
            assert(e.take(i as int) =~= e);
        }
        while i > 0
            invariant
                i <= e.len(),
                e == expected@,
                poly == old(self).top().polymorphic,
                old(self).with_top(self, self.top().stack@, poly),
                spec_pops(self.top().stack@, poly, e.take(i as int)) == spec_pops(
                    old(self).top().stack@,
                    poly,
                    e,
                ),
            decreases i,
        {
            let ghost before = self.top().stack@;
            let y = expected[i - 1];
            let x = self.pop()?;
            proof {
                assert(e.take(i as int).drop_last() =~= e.take(i - 1));
                assert(e.take(i as int).last() == e[i - 1]);
            }
            if !x.matches(y) {
                return Err(invalid());
            }
            i = i - 1;
        }
        Ok(())
    }

    /// Pushes operands of types `values`.
    pub fn pushs(&mut self, values: &Vec<ValType>)
        requires
            old(self).labels@.len() > 0,
        ensures
            old(self).with_top(
                final(self),
                old(self).top().stack@ + opds(values@),
                old(self).top().polymorphic,
            ),
    {
        let mut label = self.labels.pop().unwrap();
        let ghost s0 = label.stack@;
        let ghost l0 = label;
        let mut i: usize = 0;
        while i < values.len()
            invariant
                i <= values@.len(),
                label.stack@ == s0 + opds(values@.take(i as int)),
                label.type_ == l0.type_,
                label.kind == l0.kind,
                label.polymorphic == l0.polymorphic,
                label.branches == l0.branches,
                label.prev_stack == l0.prev_stack,
            decreases values@.len() - i,
        {
            label.stack.push(OpdType::from_valtype(values[i]));
            i = i + 1;
            proof {
                assert(opds(values@.take(i as int)) =~= opds(values@.take(i - 1)).push(
                    opd(values@[i - 1]),
                ));
            }
        }
        proof {
            assert(values@.take(i as int) =~= values@);
        }
        self.labels.push(label);
        proof {
            assert(self.labels@.drop_last() =~= old(self).labels@.drop_last());
        }
    }

    /// Pops an operand of type `t` and pushes it back with that type.
    pub fn swap(&mut self, t: ValType) -> (r: Result<(), Error>)
        requires
            old(self).labels@.len() > 0,
        ensures
            old(self).with_top(final(self), final(self).top().stack@, final(self).top().polymorphic),
            match spec_pop1(old(self).top().stack@, old(self).top().polymorphic) {
                Some((s, u)) if u.spec_matches(t) => r is Ok && old(self).with_top(
                    final(self),
                    s.push(opd(t)),
                    old(self).top().polymorphic,
                ),
                _ => r == Err::<(), Error>(Error::Invalid),
            },
    {
        self.pop_check(t)?;
        self.push(OpdType::from_valtype(t));
        Ok(())
    }
}

impl Expr {
    /// Replaces the stack of the innermost label.
    pub fn set_top_stack(&mut self, stack: Vec<OpdType>, poly: bool)
        requires
            old(self).labels@.len() > 0,
        ensures
            old(self).with_top(final(self), stack@, poly),
    {
        let mut label = self.labels.pop().unwrap();
        label.stack = stack;
        label.polymorphic = poly;
        self.labels.push(label);
        proof {
            assert(self.labels@.drop_last() =~= old(self).labels@.drop_last());
        }
    }

    /// Makes the stack unknown after an unconditional branch.
    pub fn stack_polymorphic(&mut self)
        requires
            old(self).labels@.len() > 0,
        ensures
            old(self).with_top(final(self), Seq::empty(), true),
    {
        self.set_top_stack(Vec::new(), true);
    }

    /// Makes the stack hold at least `n` operands, adding unknown ones at the bottom if allowed.
    pub fn fill(&mut self, n: usize) -> (r: Result<(), Error>)
        requires
            old(self).labels@.len() > 0,
        ensures
            old(self).with_top(final(self), final(self).top().stack@, final(self).top().polymorphic),
            match spec_fill(old(self).top().stack@, old(self).top().polymorphic, n as nat) {
                Some(s) => r is Ok && old(self).with_top(final(self), s, old(self).top().polymorphic),
                None => r == Err::<(), Error>(Error::Invalid),
            },
    {
        let k = self.labels.len() - 1;
        let len = self.labels[k].stack.len();
        if len >= n {
            proof {
                assert(self.labels@.drop_last() =~= old(self).labels@.drop_last());
            }
            return Ok(());
        }
        check(self.labels[k].polymorphic)?;
        let ghost s = self.top().stack@;
        let mut v: Vec<OpdType> = Vec::new();
        let mut j: usize = 0;
        while j < n - len
            invariant
                j <= n - len,
                v@ == Seq::new(j as nat, |i: int| OpdType::Bottom),
            decreases n - len - j,
        {
            v.push(OpdType::Bottom);
            j = j + 1;
            proof {
                assert(v@ =~= Seq::new(j as nat, |i: int| OpdType::Bottom));
            }
        }
        let mut j: usize = 0;
        while j < len
            invariant
                j <= len,
                k == self.labels@.len() - 1,
                s == self.labels@[k as int].stack@,
                len == s.len(),
                v@ == Seq::new((n - len) as nat, |i: int| OpdType::Bottom) + s.take(j as int),
            decreases len - j,
        {
            v.push(self.labels[k].stack[j]);
            j = j + 1;
            proof {
                assert(v@ =~= Seq::new((n - len) as nat, |i: int| OpdType::Bottom) + s.take(
                    j as int,
                ));
            }
        }
        proof {
            assert(s.take(len as int) =~= s);
        }
        self.set_top_stack(v, true);
        Ok(())
    }

    /// Checks that the top operands match `expected`, possibly adding unknown ones at the bottom.
    pub fn peeks(&mut self, expected: &Vec<ValType>) -> (r: Result<(), Error>)
        requires
            old(self).labels@.len() > 0,
        ensures
            old(self).with_top(final(self), final(self).top().stack@, final(self).top().polymorphic),
            r is Ok <==> (spec_fill(
                old(self).top().stack@,
                old(self).top().polymorphic,
                expected@.len(),
            ) matches Some(s) && spec_peeks(s, expected@)),
            r is Ok ==> old(self).with_top(
                final(self),
                spec_fill(
                    old(self).top().stack@,
                    old(self).top().polymorphic,
                    expected@.len(),
                )->Some_0,
                old(self).top().polymorphic,
            ),
            r is Err ==> r == Err::<(), Error>(Error::Invalid),
    {
        self.fill(expected.len())?;
        let ghost s = self.top().stack@;
        let k = self.labels.len() - 1;
        let m = self.labels[k].stack.len() - expected.len();
        let ghost top = s.skip(m as int);
        let mut i: usize = 0;
        while i < expected.len()
            invariant
                i <= expected@.len(),
                k == self.labels@.len() - 1,
                s == self.labels@[k as int].stack@,
                m + expected@.len() == s.len(),
                s.len() <= usize::MAX,
                spec_fill(old(self).top().stack@, old(self).top().polymorphic, expected@.len())
                    == Some(s),
                old(self).with_top(self, s, old(self).top().polymorphic),
                top == s.skip(m as int),
                forall|j: int| 0 <= j < i ==> (#[trigger] top[j]).spec_matches(expected@[j]),
            decreases expected@.len() - i,
        {
            assert(top[i as int] == s[m + i]);
            if !self.labels[k].stack[m + i].matches(expected[i]) {
                proof {
                    assert(s.skip(s.len() - expected@.len()) == top);
                    assert(!top[i as int].spec_matches(expected@[i as int]));
                }
                return Err(invalid());
            }
            i = i + 1;
        }
        Ok(())
    }

    /// Unifies the top operands with `expected`, possibly adding unknown ones at the bottom.
    pub fn swaps(&mut self, expected: &Vec<ValType>) -> (r: Result<(), Error>)
        requires
            old(self).labels@.len() > 0,
        ensures
            old(self).with_top(final(self), final(self).top().stack@, final(self).top().polymorphic),
            r is Ok <==> (spec_fill(
                old(self).top().stack@,
                old(self).top().polymorphic,
                expected@.len(),
            ) matches Some(s) && spec_swaps(s, expected@) is Some),
            r is Ok ==> old(self).with_top(
                final(self),
                spec_swaps(
                    spec_fill(
                        old(self).top().stack@,
                        old(self).top().polymorphic,
                        expected@.len(),
                    )->Some_0,
                    expected@,
                )->Some_0,
                old(self).top().polymorphic,
            ),
            r is Err ==> r == Err::<(), Error>(Error::Invalid),
    {
        self.fill(expected.len())?;
        let ghost s = self.top().stack@;
        let k = self.labels.len() - 1;
        let poly = self.labels[k].polymorphic;
        let n = expected.len();
        let m = self.labels[k].stack.len() - n;
        let mut v: Vec<OpdType> = Vec::new();
        let mut j: usize = 0;
        while j < m
            invariant
                j <= m,
                k == self.labels@.len() - 1,
                s == self.labels@[k as int].stack@,
                m + n == s.len(),
                n == expected@.len(),
                v@ == s.take(j as int),
            decreases m - j,
        {
            v.push(self.labels[k].stack[j]);
            j = j + 1;
            proof {
                assert(v@ =~= s.take(j as int));
            }
        }
        let ghost top = s.skip(m as int);
        let mut i: usize = 0;
        while i < n
            invariant
                i <= n,
                k == self.labels@.len() - 1,
                s == self.labels@[k as int].stack@,
                m + n == s.len(),
                s.len() <= usize::MAX,
                spec_fill(old(self).top().stack@, old(self).top().polymorphic, expected@.len())
                    == Some(s),
                old(self).with_top(self, s, old(self).top().polymorphic),
                n == expected@.len(),
                top == s.skip(m as int),
                v@ == s.take(m as int) + Seq::new(
                    i as nat,
                    |j: int| top[j].spec_unify(opd(expected@[j]))->Some_0,
                ),
                forall|j: int| 0 <= j < i ==> (#[trigger] top[j]).spec_unify(opd(expected@[j])) is Some,
            decreases n - i,
        {
            assert(top[i as int] == s[m + i]);
            let t = self.labels[k].stack[m + i].unify(OpdType::from_valtype(expected[i]))?;
            v.push(t);
            i = i + 1;
            proof {
                assert(v@ =~= s.take(m as int) + Seq::new(
                    i as nat,
                    |j: int| top[j].spec_unify(opd(expected@[j]))->Some_0,
                ));
            }
        }
        self.set_top_stack(v, poly);
        proof {
            assert(self.labels@.drop_last() =~= old(self).labels@.drop_last());
        }
        Ok(())
    }
}

/// Pops operands of types `params` and pushes operands of types `results`.
pub open spec fn spec_apply(s: Seq<OpdType>, poly: bool, params: Seq<ValType>, results: Seq<ValType>) -> Option<
    Seq<OpdType>,
> {
    match spec_pops(s, poly, params) {
        Some(s2) => Some(s2 + opds(results)),
        None => None,
    }
}

/// The number of bytes of an alignment exponent, capped above 8.
pub open spec fn align_bytes(align: u32) -> int {
    if align == 0 {
        1
    } else if align == 1 {
        2
    } else if align == 2 {
        4
    } else if align == 3 {
        8
    } else {
        16
    }
}

/// The type of a block.
pub open spec fn spec_blocktype(types: Seq<FuncType>, b: crate::syntax::BlockType) -> Option<
    crate::syntax::FuncTypeView,
> {
    match b {
        crate::syntax::BlockType::Empty => Some(
            crate::syntax::FuncTypeView { params: Seq::empty(), results: Seq::empty() },
        ),
        crate::syntax::BlockType::Type(t) => Some(
            crate::syntax::FuncTypeView { params: Seq::empty(), results: seq![t] },
        ),
        crate::syntax::BlockType::Index(x) => if x < types.len() {
            Some(types[x as int]@)
        } else {
            None
        },
    }
}

/// The value type of numbers of type `t`.
pub open spec fn num_val(t: NumType) -> ValType {
    t.spec_valtype()
}

/// The types of the numeric instructions (parameters, then results): tests and comparisons
/// give an `i32`; unary and binary operators keep the type of their operands; conversions go
/// from their source type to their destination type (truncations from floats to integers,
/// conversions from integers to floats, wrapping from `i64` to `i32`, extension from `i32` to
/// `i64`, demotion from `f64` to `f32`, promotion the other way, reinterpretations between the
/// integer and float of the same width); sign extensions keep the type of their operand.
pub proof fn lemma_numeric_types(
    it: crate::syntax::ITestOp,
    ir: crate::syntax::IRelOp,
    fr: crate::syntax::FRelOp,
    iu: crate::syntax::IUnOp,
    fu: crate::syntax::FUnOp,
    ib: crate::syntax::IBinOp,
    fb: crate::syntax::FBinOp,
    sx: crate::syntax::Sx,
)
    ensures
        numeric_type(Instr::ITestOp(crate::syntax::Nx::N32, it)) == Some((seq![ValType::I32], seq![ValType::I32])),
        numeric_type(Instr::ITestOp(crate::syntax::Nx::N64, it)) == Some((seq![ValType::I64], seq![ValType::I32])),
        numeric_type(Instr::IRelOp(crate::syntax::Nx::N32, ir)) == Some((seq![ValType::I32, ValType::I32], seq![ValType::I32])),
        numeric_type(Instr::IRelOp(crate::syntax::Nx::N64, ir)) == Some((seq![ValType::I64, ValType::I64], seq![ValType::I32])),
        numeric_type(Instr::FRelOp(crate::syntax::Nx::N32, fr)) == Some((seq![ValType::F32, ValType::F32], seq![ValType::I32])),
        numeric_type(Instr::FRelOp(crate::syntax::Nx::N64, fr)) == Some((seq![ValType::F64, ValType::F64], seq![ValType::I32])),
        numeric_type(Instr::IUnOp(crate::syntax::Nx::N32, iu)) == Some((seq![ValType::I32], seq![ValType::I32])),
        numeric_type(Instr::IUnOp(crate::syntax::Nx::N64, iu)) == Some((seq![ValType::I64], seq![ValType::I64])),
        numeric_type(Instr::FUnOp(crate::syntax::Nx::N32, fu)) == Some((seq![ValType::F32], seq![ValType::F32])),
        numeric_type(Instr::FUnOp(crate::syntax::Nx::N64, fu)) == Some((seq![ValType::F64], seq![ValType::F64])),
        numeric_type(Instr::IBinOp(crate::syntax::Nx::N32, ib)) == Some((seq![ValType::I32, ValType::I32], seq![ValType::I32])),
        numeric_type(Instr::IBinOp(crate::syntax::Nx::N64, ib)) == Some((seq![ValType::I64, ValType::I64], seq![ValType::I64])),
        numeric_type(Instr::FBinOp(crate::syntax::Nx::N32, fb)) == Some((seq![ValType::F32, ValType::F32], seq![ValType::F32])),
        numeric_type(Instr::FBinOp(crate::syntax::Nx::N64, fb)) == Some((seq![ValType::F64, ValType::F64], seq![ValType::F64])),
        numeric_type(Instr::CvtOp(crate::syntax::CvtOp::Wrap)) == Some((seq![ValType::I64], seq![ValType::I32])),
        numeric_type(Instr::CvtOp(crate::syntax::CvtOp::Extend(sx))) == Some((seq![ValType::I32], seq![ValType::I64])),
        numeric_type(Instr::CvtOp(crate::syntax::CvtOp::Trunc(crate::syntax::Nx::N32, crate::syntax::Nx::N32, sx))) == Some((seq![ValType::F32], seq![ValType::I32])),
        numeric_type(Instr::CvtOp(crate::syntax::CvtOp::Trunc(crate::syntax::Nx::N32, crate::syntax::Nx::N64, sx))) == Some((seq![ValType::F64], seq![ValType::I32])),
        numeric_type(Instr::CvtOp(crate::syntax::CvtOp::Trunc(crate::syntax::Nx::N64, crate::syntax::Nx::N32, sx))) == Some((seq![ValType::F32], seq![ValType::I64])),
        numeric_type(Instr::CvtOp(crate::syntax::CvtOp::Trunc(crate::syntax::Nx::N64, crate::syntax::Nx::N64, sx))) == Some((seq![ValType::F64], seq![ValType::I64])),
        numeric_type(Instr::CvtOp(crate::syntax::CvtOp::TruncSat(crate::syntax::Nx::N32, crate::syntax::Nx::N32, sx))) == Some((seq![ValType::F32], seq![ValType::I32])),
        numeric_type(Instr::CvtOp(crate::syntax::CvtOp::TruncSat(crate::syntax::Nx::N32, crate::syntax::Nx::N64, sx))) == Some((seq![ValType::F64], seq![ValType::I32])),
        numeric_type(Instr::CvtOp(crate::syntax::CvtOp::TruncSat(crate::syntax::Nx::N64, crate::syntax::Nx::N32, sx))) == Some((seq![ValType::F32], seq![ValType::I64])),
        numeric_type(Instr::CvtOp(crate::syntax::CvtOp::TruncSat(crate::syntax::Nx::N64, crate::syntax::Nx::N64, sx))) == Some((seq![ValType::F64], seq![ValType::I64])),
        numeric_type(Instr::CvtOp(crate::syntax::CvtOp::Convert(crate::syntax::Nx::N32, crate::syntax::Nx::N32, sx))) == Some((seq![ValType::I32], seq![ValType::F32])),
        numeric_type(Instr::CvtOp(crate::syntax::CvtOp::Convert(crate::syntax::Nx::N32, crate::syntax::Nx::N64, sx))) == Some((seq![ValType::I64], seq![ValType::F32])),
        numeric_type(Instr::CvtOp(crate::syntax::CvtOp::Convert(crate::syntax::Nx::N64, crate::syntax::Nx::N32, sx))) == Some((seq![ValType::I32], seq![ValType::F64])),
        numeric_type(Instr::CvtOp(crate::syntax::CvtOp::Convert(crate::syntax::Nx::N64, crate::syntax::Nx::N64, sx))) == Some((seq![ValType::I64], seq![ValType::F64])),
        numeric_type(Instr::CvtOp(crate::syntax::CvtOp::Demote)) == Some((seq![ValType::F64], seq![ValType::F32])),
        numeric_type(Instr::CvtOp(crate::syntax::CvtOp::Promote)) == Some((seq![ValType::F32], seq![ValType::F64])),
        numeric_type(Instr::CvtOp(crate::syntax::CvtOp::IReinterpret(crate::syntax::Nx::N32))) == Some((seq![ValType::F32], seq![ValType::I32])),
        numeric_type(Instr::CvtOp(crate::syntax::CvtOp::IReinterpret(crate::syntax::Nx::N64))) == Some((seq![ValType::F64], seq![ValType::I64])),
        numeric_type(Instr::CvtOp(crate::syntax::CvtOp::FReinterpret(crate::syntax::Nx::N32))) == Some((seq![ValType::I32], seq![ValType::F32])),
        numeric_type(Instr::CvtOp(crate::syntax::CvtOp::FReinterpret(crate::syntax::Nx::N64))) == Some((seq![ValType::I64], seq![ValType::F64])),
        numeric_type(Instr::IExtend(crate::syntax::Bx::N32B8)) == Some((seq![ValType::I32], seq![ValType::I32])),
        numeric_type(Instr::IExtend(crate::syntax::Bx::N32B16)) == Some((seq![ValType::I32], seq![ValType::I32])),
        numeric_type(Instr::IExtend(crate::syntax::Bx::N64B8)) == Some((seq![ValType::I64], seq![ValType::I64])),
        numeric_type(Instr::IExtend(crate::syntax::Bx::N64B16)) == Some((seq![ValType::I64], seq![ValType::I64])),
        numeric_type(Instr::IExtend(crate::syntax::Bx::N64B32)) == Some((seq![ValType::I64], seq![ValType::I64])),
{
}

/// The operand and result types of an instruction that only computes on operands, if it is one.
pub open spec fn numeric_type(i: Instr) -> Option<(Seq<ValType>, Seq<ValType>)> {
    match i {
        Instr::I32Const(_) => Some((seq![], seq![ValType::I32])),
        Instr::I64Const(_) => Some((seq![], seq![ValType::I64])),
        Instr::F32Const(_) => Some((seq![], seq![ValType::F32])),
        Instr::F64Const(_) => Some((seq![], seq![ValType::F64])),
        Instr::ITestOp(n, _) => Some((seq![num_val(NumType::spec_i(n))], seq![ValType::I32])),
        Instr::IRelOp(n, _) => Some(
            (seq![num_val(NumType::spec_i(n)), num_val(NumType::spec_i(n))], seq![ValType::I32]),
        ),
        Instr::FRelOp(n, _) => Some(
            (seq![num_val(NumType::spec_f(n)), num_val(NumType::spec_f(n))], seq![ValType::I32]),
        ),
        Instr::IUnOp(n, _) => Some(
            (seq![num_val(NumType::spec_i(n))], seq![num_val(NumType::spec_i(n))]),
        ),
        Instr::FUnOp(n, _) => Some(
            (seq![num_val(NumType::spec_f(n))], seq![num_val(NumType::spec_f(n))]),
        ),
        Instr::IBinOp(n, _) => Some(
            (
                seq![num_val(NumType::spec_i(n)), num_val(NumType::spec_i(n))],
                seq![num_val(NumType::spec_i(n))],
            ),
        ),
        Instr::FBinOp(n, _) => Some(
            (
                seq![num_val(NumType::spec_f(n)), num_val(NumType::spec_f(n))],
                seq![num_val(NumType::spec_f(n))],
            ),
        ),
        Instr::CvtOp(op) => Some((seq![num_val(op.spec_src())], seq![num_val(op.spec_dst())])),
        Instr::IExtend(b) => Some(
            (seq![num_val(NumType::spec_i(b.spec_nx()))], seq![num_val(NumType::spec_i(b.spec_nx()))]),
        ),
        Instr::RefNull(t) => Some((seq![], seq![t.spec_valtype()])),
        _ => None,
    }
}

/// The type of the function `x` of the module of context `ctx`, if it is one.
pub open spec fn func_type_of(ctx: Context, x: u32) -> Option<crate::syntax::FuncTypeView> {
    if x < ctx.funcs@.len() && ctx.funcs@[x as int] < ctx.types@.len() {
        Some(ctx.types@[ctx.funcs@[x as int] as int]@)
    } else {
        None
    }
}

/// Whether `r` and `e1` are the outcome of checking the control instruction `i` in `e0`:
/// `unreachable` makes the operand stack polymorphic, `nop` changes nothing, a block, loop or `if`
/// (after popping an `i32`) enters a label of its type whose stack holds its parameters (`else`
/// checks the results of the `if` and starts over with its parameters), `br l`
/// pops the operands of label `l` and makes the stack polymorphic (`br_if l` pops an `i32` and
/// keeps them), `end` pops the results of the innermost label and pushes them on the enclosing
/// one, `return` pops the results of the function, `call x` pops the parameters of
/// function `x` and pushes its results, and `call_indirect` does so for its type after popping an
/// `i32` index into a table of function references.
pub open spec fn control_typed(e0: Expr, e1: Expr, ctx: Context, i: Instr, r: Result<(), Error>) -> bool {
    let n = e0.labels@.len();
    match i {
        Instr::Unreachable => r is Ok && e0.with_top(&e1, Seq::empty(), true),
        Instr::Nop => r is Ok && e1 == e0,
        Instr::Block(b) | Instr::Loop(b) => match spec_blocktype(ctx.types@, b) {
            None => r == Err::<(), Error>(Error::Invalid),
            Some(t) => r is Ok ==> {
                &&& spec_pops(e0.top().stack@, e0.top().polymorphic, t.params) is Some
                &&& e1.labels@.len() == n + 1
                &&& e1.top().type_@ == t
                &&& e1.top().stack@ == opds(t.params)
                &&& !e1.top().polymorphic
                &&& (i is Block ==> e1.top().kind is Block)
                &&& (i is Loop ==> e1.top().kind is Loop)
            },
        },
        Instr::If(b) => match spec_blocktype(ctx.types@, b) {
            None => r is Err,
            Some(t) => r is Ok ==> {
                let poly = e0.top().polymorphic;
                &&& spec_pop1(e0.top().stack@, poly) matches Some((s, u))
                &&& u.spec_matches(ValType::I32)
                &&& spec_pops(s, poly, t.params) is Some
                &&& e1.labels@.len() == n + 1
                &&& e1.top().type_@ == t
                &&& e1.top().stack@ == opds(t.params)
                &&& !e1.top().polymorphic
                &&& e1.top().kind is If
            },
        },
        Instr::End => r is Ok ==> {
            let top = e0.top();
            &&& e1.labels@.len() == n - 1
            &&& spec_pops(top.stack@, top.polymorphic, top.type_@.results) == Some(Seq::<OpdType>::empty())
            &&& top.kind is If ==> top.type_@.params == top.type_@.results
            &&& n > 1 ==> label_with_stack(
                e0.labels@[n - 2],
                e1.top(),
                e0.labels@[n - 2].stack@ + opds(top.type_@.results),
                e0.labels@[n - 2].polymorphic,
            )
        },
        Instr::Else => r is Ok ==> {
            let t = e0.top().type_@;
            &&& e0.top().kind is If
            &&& spec_pops(e0.top().stack@, e0.top().polymorphic, t.results) == Some(Seq::<OpdType>::empty())
            &&& e1.labels@.len() == n
            &&& e1.top().type_ == e0.top().type_
            &&& e1.top().kind is Block
            &&& e1.top().stack@ == opds(t.params)
            &&& !e1.top().polymorphic
        },
        Instr::Br(l) => {
            &&& l >= n ==> r is Err
            &&& r is Ok ==> {
                let label = e0.labels@[n - l - 1];
                let ts = if label.kind is Loop {
                    label.type_@.params
                } else {
                    label.type_@.results
                };
                &&& l < n
                &&& spec_pops(e0.top().stack@, e0.top().polymorphic, ts) is Some
                &&& e1.labels@.len() == n
                &&& e1.top().stack@ == Seq::<OpdType>::empty()
                &&& e1.top().polymorphic
            }
        },
        Instr::BrIf(l) => {
            &&& l >= n ==> r is Err
            &&& r is Ok ==> {
                let label = e0.labels@[n - l - 1];
                let ts = if label.kind is Loop {
                    label.type_@.params
                } else {
                    label.type_@.results
                };
                let poly = e0.top().polymorphic;
                &&& l < n
                &&& spec_pop1(e0.top().stack@, poly) matches Some((s, u))
                &&& u.spec_matches(ValType::I32)
                &&& spec_fill(s, poly, ts.len()) matches Some(s2)
                &&& spec_swaps(s2, ts) == Some(e1.top().stack@)
                &&& e1.labels@.len() == n
                &&& e1.top().polymorphic == poly
            }
        },
        Instr::Return => {
            &&& !e0.is_body ==> r is Err
            &&& r is Ok ==> {
                &&& e0.is_body
                &&& spec_pops(e0.top().stack@, e0.top().polymorphic, e0.labels@[0].type_@.results) is Some
                &&& e1.labels@.len() == n
                &&& e1.top().stack@ == Seq::<OpdType>::empty()
                &&& e1.top().polymorphic
            }
        },
        Instr::Call(x) => match func_type_of(ctx, x) {
            None => r == Err::<(), Error>(Error::Invalid),
            Some(t) => typed_by(e0, e1, t.params, t.results, r),
        },
        Instr::CallIndirect(x, y) => r is Ok ==> {
            let poly = e0.top().polymorphic;
            &&& x < ctx.tables@.len()
            &&& ctx.tables@[x as int].item == RefType::FuncRef
            &&& y < ctx.types@.len()
            &&& spec_pop1(e0.top().stack@, poly) matches Some((s, u))
            &&& u.spec_matches(ValType::I32)
            &&& spec_apply(s, poly, ctx.types@[y as int]@.params, ctx.types@[y as int]@.results) == Some(
                e1.top().stack@,
            )
            &&& e1.labels@.len() == n
        },
        _ => true,
    }
}

/// Whether the side table can record a branch to the label `l` of `e` (counted from the
/// innermost) from the position `pos`, at the entry `bt` of the branch table and with
/// `stack_len` operands on the innermost label: the
/// stack height fits, and the entry of a branch back to a loop can be encoded.
pub open spec fn branch_fits(e: Expr, bt: int, stack_len: int, pos: int, l: int) -> bool {
    let n = e.labels@.len() as int;
    let top = e.top();
    let source = SideTableBranch {
        parser: pos as usize,
        branch_table: bt as usize,
        stack: (top.prev_stack + stack_len) as usize,
        result: 0,
    };
    &&& top.prev_stack + stack_len <= usize::MAX
    &&& 0 <= l < n ==> (e.labels@[n - l - 1].kind matches LabelKind::Loop(t) ==> spec_branch_entry(
        source,
        t,
    ) is Some)
}

/// Whether `call_indirect y x` checks in `e`: table `x` holds function references, type `y`
/// exists, and its parameters are below an `i32` on the stack.
pub open spec fn call_indirect_ok(e: Expr, ctx: Context, x: u32, y: u32) -> bool {
    let poly = e.top().polymorphic;
    &&& x < ctx.tables@.len()
    &&& ctx.tables@[x as int].item == RefType::FuncRef
    &&& spec_pop1(e.top().stack@, poly) matches Some((s, u))
    &&& u.spec_matches(ValType::I32)
    &&& y < ctx.types@.len()
    &&& spec_apply(s, poly, ctx.types@[y as int]@.params, ctx.types@[y as int]@.results) is Some
}

/// Whether `br_if l` checks in `e` at the position `pos`: an `i32` is on top of the operands of
/// label `l`, and the side table can record the branch.
pub open spec fn br_if_ok(e: Expr, pos: int, l: int) -> bool {
    let poly = e.top().polymorphic;
    let ts = label_types(e, l);
    &&& 0 <= l < e.labels@.len()
    &&& spec_pop1(e.top().stack@, poly) matches Some((s, u))
    &&& u.spec_matches(ValType::I32)
    &&& branch_fits(e, e.branch_table@.len() as int, s.len() as int, pos, l)
    &&& spec_fill(s, poly, ts.len()) matches Some(s2)
    &&& spec_swaps(s2, ts) is Some
}

/// Whether the label `l` of a `br_table` in `e` checks, at the entry `bt` of the branch table and
/// with the operands `s`: it exists, takes as many operands as the default one (`tn`), finds them
/// on `s`, and the side table can record the branch.
pub open spec fn br_table_label_ok(e: Expr, bt: int, s: Seq<OpdType>, pos: int, l: u32, tn: Seq<ValType>) -> bool {
    &&& l < e.labels@.len()
    &&& branch_fits(e, bt, s.len() as int, pos, l as int)
    &&& label_types(e, l as int).len() == tn.len()
    &&& spec_peeks(s, label_types(e, l as int))
}

/// Whether `br_table ls ln` checks in `e` at the position `pos`: an `i32` is popped, the operands
/// of the default label `ln` are found (adding unknown ones at the bottom of a polymorphic stack),
/// and then each label of `ls` checks with them.
pub open spec fn br_table_ok(e: Expr, pos: int, ls: Seq<u32>, ln: u32) -> bool {
    let poly = e.top().polymorphic;
    let bt = e.branch_table@.len() as int;
    let tn = label_types(e, ln as int);
    &&& spec_pop1(e.top().stack@, poly) matches Some((s0, u))
    &&& u.spec_matches(ValType::I32)
    &&& ln < e.labels@.len()
    &&& branch_fits(e, bt, s0.len() as int, pos, ln as int)
    &&& spec_fill(s0, poly, tn.len()) matches Some(s1)
    &&& spec_peeks(s1, tn)
    &&& forall|j: int| 0 <= j < ls.len() ==> br_table_label_ok(e, bt + 1 + j, s1, pos, #[trigger] ls[j], tn)
}

/// Whether `else` checks in `e` at the position `pos`: the innermost label is an `if` whose
/// results are exactly the operands, and the side table can record the jump from the `if` to
/// here and the branch from here to the end.
pub open spec fn else_ok(e: Expr, pos: int) -> bool {
    let top = e.top();
    let t = top.type_@;
    let bt = e.branch_table@.len() as int;
    let target = SideTableBranch {
        parser: pos as usize,
        branch_table: (bt + 1) as usize,
        stack: (top.prev_stack + t.results.len()) as usize,
        result: t.results.len() as usize,
    };
    &&& top.kind matches LabelKind::If(src)
    &&& top.prev_stack + t.results.len() <= usize::MAX
    &&& bt < usize::MAX
    &&& spec_branch_entry(src, target) is Some
    &&& spec_pops(top.stack@, top.polymorphic, t.results) == Some(Seq::<OpdType>::empty())
    &&& top.prev_stack + t.params.len() <= usize::MAX
}

/// The type of the operand that the instruction `i` pushes in a constant expression of the
/// context `ctx` that reads the first `globals_len` globals, if `i` may stand there.
pub open spec fn const_instr_type(ctx: Context, globals_len: int, i: Instr) -> Option<ValType> {
    match i {
        Instr::I32Const(_) => Some(ValType::I32),
        Instr::I64Const(_) => Some(ValType::I64),
        Instr::F32Const(_) => Some(ValType::F32),
        Instr::F64Const(_) => Some(ValType::F64),
        Instr::RefNull(t) => Some(t.spec_valtype()),
        Instr::RefFunc(x) => if x < ctx.funcs@.len() {
            Some(ValType::FuncRef)
        } else {
            None
        },
        Instr::GlobalGet(x) => if x < globals_len && ctx.globals@[x as int].mutable == Mut::Const {
            Some(ctx.globals@[x as int].value)
        } else {
            None
        },
        _ => None,
    }
}

/// Whether `r` and `e1` are the outcome of checking the instruction `i` in the constant
/// expression `e0`: `end` checks that the operands are the results, and the other instructions
/// that may stand there push their operand.
pub open spec fn const_step(e0: Expr, e1: Expr, ctx: Context, i: Instr, r: Result<(), Error>) -> bool {
    if i is End {
        &&& r is Ok <==> spec_pops(e0.top().stack@, e0.top().polymorphic, e0.top().type_@.results) == Some(
            Seq::<OpdType>::empty(),
        )
        &&& r is Ok ==> e1.labels@.len() + 1 == e0.labels@.len()
    } else {
        match const_instr_type(ctx, e0.globals_len as int, i) {
            Some(t) => r is Ok && e0.with_top(&e1, e0.top().stack@.push(opd(t)), e0.top().polymorphic),
            None => r == Err::<(), Error>(Error::Invalid),
        }
    }
}

/// The number of bytes of the rest of a constant expression at the start of `s`, in the context
/// `ctx`, reading the first `globals_len` globals, with the operands `stack` so far and the
/// result types `results`, if it checks: each instruction may stand there and pushes its operand,
/// and at the `end` the operands are the results.
pub open spec fn spec_const_check(
    ctx: Context,
    globals_len: int,
    s: Seq<u8>,
    stack: Seq<OpdType>,
    results: Seq<ValType>,
) -> Option<nat>
    decreases s.len(),
{
    match spec_instr(s) {
        Ok((InstrView::Plain(i), n)) => if 1 <= n <= s.len() {
            if i is End {
                if spec_pops(stack, false, results) == Some(Seq::<OpdType>::empty()) {
                    Some(n)
                } else {
                    None
                }
            } else {
                match const_instr_type(ctx, globals_len, i) {
                    Some(t) => match spec_const_check(ctx, globals_len, s.skip(n as int), stack.push(opd(t)), results) {
                        Some(m) => Some(n + m),
                        None => None,
                    },
                    None => None,
                }
            }
        } else {
            None
        },
        _ => None,
    }
}

/// Whether checking a constant expression from `s0` with the operands `stack0` has reached `e`,
/// with `rest` left after `k` bytes: either it is still in its block, and checking the rest gives
/// the outcome of checking the whole, or it has ended and the whole checks in `k` bytes.
pub open spec fn const_progress(
    ctx: Context,
    globals_len: int,
    s0: Seq<u8>,
    stack0: Seq<OpdType>,
    results: Seq<ValType>,
    e: Expr,
    rest: Seq<u8>,
    k: int,
) -> bool {
    ||| {
        &&& e.labels@.len() == 1
        &&& e.top().type_@.results == results
        &&& !e.top().polymorphic
        &&& spec_const_check(ctx, globals_len, s0, stack0, results) == match spec_const_check(
            ctx,
            globals_len,
            rest,
            e.top().stack@,
            results,
        ) {
            Some(m) => Some((m + k) as nat),
            None => None,
        }
    }
    ||| e.labels@.len() == 0 && spec_const_check(ctx, globals_len, s0, stack0, results) == Some(k as nat)
}

/// The operand types of a branch to the label `l` (counted from the innermost) of `e`: the
/// parameters of a loop, the results of other blocks.
pub open spec fn label_types(e: Expr, l: int) -> Seq<ValType> {
    let label = e.labels@[e.labels@.len() - l - 1];
    if label.kind is Loop {
        label.type_@.params
    } else {
        label.type_@.results
    }
}

/// Whether `r` and `e1` are the outcome of checking `br_table ls ln` in `e0`: an `i32` is popped,
/// every label exists and takes as many operands as the default one `ln`, and the stack becomes
/// polymorphic.
pub open spec fn br_table_typed(e0: Expr, e1: Expr, ls: Seq<u32>, ln: u32, r: Result<(), Error>) -> bool {
    let n = e0.labels@.len();
    r is Ok ==> {
        &&& spec_pop1(e0.top().stack@, e0.top().polymorphic) matches Some((s, u))
        &&& u.spec_matches(ValType::I32)
        &&& ln < n
        &&& forall|j: int| 0 <= j < ls.len() ==> #[trigger] ls[j] < n && label_types(e0, ls[j] as int).len()
            == label_types(e0, ln as int).len()
        &&& e1.labels@.len() == n
        &&& e1.top().stack@ == Seq::<OpdType>::empty()
        &&& e1.top().polymorphic
    }
}

/// Changing the stack of the innermost label keeps the types and kinds of the labels.
pub proof fn lemma_with_top_types(a: &Expr, b: &Expr, s: Seq<OpdType>, p: bool)
    requires
        a.with_top(b, s, p),
    ensures
        forall|k: int| 0 <= k < a.labels@.len() ==> (#[trigger] b.labels@[k]).type_ == a.labels@[k].type_
            && b.labels@[k].kind == a.labels@[k].kind,
{
    assert forall|k: int| 0 <= k < a.labels@.len() implies (#[trigger] b.labels@[k]).type_
        == a.labels@[k].type_ && b.labels@[k].kind == a.labels@[k].kind by {
        if k < a.labels@.len() - 1 {
            assert(b.labels@[k] == b.labels@.drop_last()[k]);
            assert(a.labels@[k] == a.labels@.drop_last()[k]);
        }
    }
}

/// Whether `r` and `e1` are the outcome of checking the instruction `i` in `e0`, as far as
/// `numeric_type`, `variable_type` and `control_typed` describe it.
pub open spec fn instr_typed(e0: Expr, e1: Expr, ctx: Context, i: Instr, r: Result<(), Error>) -> bool {
    &&& match numeric_type(i) {
        Some((p, q)) => typed_by(e0, e1, p, q, r),
        None => true,
    }
    &&& match variable_type(e0, ctx, i) {
        Some(Some((p, q))) => typed_by(e0, e1, p, q, r),
        Some(None) => r == Err::<(), Error>(Error::Invalid),
        None => true,
    }
    &&& control_typed(e0, e1, ctx, i, r)
}

proof fn lemma_apply_push(s: Seq<OpdType>, poly: bool, t: ValType)
    ensures
        spec_apply(s, poly, seq![], seq![t]) == Some(s.push(opd(t))),
{
    assert(opds(seq![t]) =~= seq![opd(t)]);
    assert(s + seq![opd(t)] =~= s.push(opd(t)));
}

proof fn lemma_apply_pop(s: Seq<OpdType>, poly: bool, t: ValType)
    ensures
        spec_apply(s, poly, seq![t], seq![]) == match spec_pop1(s, poly) {
            Some((s2, u)) => if u.spec_matches(t) {
                Some(s2)
            } else {
                None
            },
            None => None,
        },
{
    let e = seq![t];
    assert(e.drop_last() =~= Seq::<ValType>::empty());
    assert(opds(seq![]) =~= Seq::<OpdType>::empty());
    if let Some((s2, u)) = spec_pop1(s, poly) {
        assert(spec_pops(s2, poly, e.drop_last()) == Some(s2));
        assert(s2 + opds(seq![]) =~= s2);
    }
}

/// The operand and result types of a variable instruction in the expression `e` of the module of
/// context `ctx` (`None` when the instruction is invalid), if it is a local or global access, a
/// memory load or store, or `memory.size`.
pub open spec fn variable_type(e: Expr, ctx: Context, i: Instr) -> Option<
    Option<(Seq<ValType>, Seq<ValType>)>,
> {
    match i {
        Instr::LocalGet(x) => Some(
            if x < e.locals@.len() {
                Some((seq![], seq![e.locals@[x as int]]))
            } else {
                None
            },
        ),
        Instr::LocalSet(x) => Some(
            if x < e.locals@.len() {
                Some((seq![e.locals@[x as int]], seq![]))
            } else {
                None
            },
        ),
        Instr::GlobalGet(x) => Some(
            if x < ctx.globals@.len() {
                Some((seq![], seq![ctx.globals@[x as int].value]))
            } else {
                None
            },
        ),
        Instr::GlobalSet(x) => Some(
            if x < ctx.globals@.len() && ctx.globals@[x as int].mutable == Mut::Var {
                Some((seq![ctx.globals@[x as int].value], seq![]))
            } else {
                None
            },
        ),
        Instr::MemorySize => Some(
            if ctx.mems@.len() > 0 {
                Some((seq![], seq![ValType::I32]))
            } else {
                None
            },
        ),
        Instr::ILoad(n, m) => Some(load_type(ctx, NumType::spec_i(n), n.spec_bits(), m)),
        Instr::FLoad(n, m) => Some(load_type(ctx, NumType::spec_f(n), n.spec_bits(), m)),
        Instr::ILoad_(b, _, m) => Some(load_type(ctx, NumType::spec_i(b.spec_nx()), b.spec_bits(), m)),
        Instr::IStore(n, m) => Some(store_type(ctx, NumType::spec_i(n), n.spec_bits(), m)),
        Instr::FStore(n, m) => Some(store_type(ctx, NumType::spec_f(n), n.spec_bits(), m)),
        Instr::IStore_(b, m) => Some(store_type(ctx, NumType::spec_i(b.spec_nx()), b.spec_bits(), m)),
        _ => None,
    }
}

/// The operand and result types of a load of `n` bits into a number of type `t`, if the memory
/// argument is valid.
pub open spec fn load_type(ctx: Context, t: NumType, n: usize, m: crate::syntax::MemArg) -> Option<
    (Seq<ValType>, Seq<ValType>),
> {
    if Expr::check_mem_ok(&ctx, false, n, m) {
        Some((seq![ValType::I32], seq![num_val(t)]))
    } else {
        None
    }
}

/// The operand and result types of a store of `n` bits of a number of type `t`, if the memory
/// argument is valid.
pub open spec fn store_type(ctx: Context, t: NumType, n: usize, m: crate::syntax::MemArg) -> Option<
    (Seq<ValType>, Seq<ValType>),
> {
    if Expr::check_mem_ok(&ctx, false, n, m) {
        Some((seq![ValType::I32, num_val(t)], seq![]))
    } else {
        None
    }
}

proof fn lemma_apply_no_results(s: Seq<OpdType>, poly: bool, p: Seq<ValType>)
    ensures
        spec_apply(s, poly, p, seq![]) == spec_pops(s, poly, p),
{
    assert(opds(seq![]) =~= Seq::<OpdType>::empty());
    if let Some(s2) = spec_pops(s, poly, p) {
        assert(s2 + opds(seq![]) =~= s2);
    }
}

/// The operand types of the bulk memory and table instructions, and of the data and element
/// drops, in the context `ctx` (parameters, then results): `Some(None)` when the memory, table or
/// segment they name does not exist, or when the types of a table and of a segment disagree.
pub open spec fn bulk_type(ctx: Context, i: Instr) -> Option<Option<(Seq<ValType>, Seq<ValType>)>> {
    let i32s3 = seq![ValType::I32, ValType::I32, ValType::I32];
    match i {
        Instr::MemoryInit(x) => Some(
            if ctx.mems@.len() > 0 && (ctx.datas matches Some(n) && x < n) {
                Some((i32s3, seq![]))
            } else {
                None
            },
        ),
        Instr::DataDrop(x) => Some(
            if ctx.datas matches Some(n) && x < n {
                Some((seq![], seq![]))
            } else {
                None
            },
        ),
        Instr::MemoryCopy => Some(
            if ctx.mems@.len() > 0 {
                Some((i32s3, seq![]))
            } else {
                None
            },
        ),
        Instr::MemoryFill => Some(
            if ctx.mems@.len() > 0 {
                Some((i32s3, seq![]))
            } else {
                None
            },
        ),
        Instr::TableInit(x, y) => Some(
            if x < ctx.tables@.len() && y < ctx.elems@.len() && ctx.tables@[x as int].item
                == ctx.elems@[y as int] {
                Some((i32s3, seq![]))
            } else {
                None
            },
        ),
        Instr::ElemDrop(x) => Some(
            if x < ctx.elems@.len() {
                Some((seq![], seq![]))
            } else {
                None
            },
        ),
        Instr::TableCopy(x, y) => Some(
            if x < ctx.tables@.len() && y < ctx.tables@.len() && ctx.tables@[x as int].item
                == ctx.tables@[y as int].item {
                Some((i32s3, seq![]))
            } else {
                None
            },
        ),
        Instr::TableGrow(x) => Some(
            if x < ctx.tables@.len() {
                Some(
                    (
                        seq![ctx.tables@[x as int].item.spec_valtype(), ValType::I32],
                        seq![ValType::I32],
                    ),
                )
            } else {
                None
            },
        ),
        Instr::TableSize(x) => Some(
            if x < ctx.tables@.len() {
                Some((seq![], seq![ValType::I32]))
            } else {
                None
            },
        ),
        Instr::TableFill(x) => Some(
            if x < ctx.tables@.len() {
                Some(
                    (
                        seq![ValType::I32, ctx.tables@[x as int].item.spec_valtype(), ValType::I32],
                        seq![],
                    ),
                )
            } else {
                None
            },
        ),
        _ => None,
    }
}

/// The types of the bulk memory and table instructions: with a memory, `memory.copy` and
/// `memory.fill` take three `i32` operands (a destination, then a source or a value, then a
/// length) and give nothing, as does `memory.init` of an existing data segment; without a memory
/// they are invalid. `table.init` and `table.copy` take three `i32` operands when the table and
/// the segment or both tables hold the same references; `table.grow` takes a reference and an
/// `i32` and gives an `i32`; `table.size` gives an `i32`; `table.fill` takes an `i32`, a reference
/// and an `i32`; the drops take nothing.
pub proof fn lemma_bulk_types(ctx: Context, x: u32, y: u32)
    ensures
        bulk_type(ctx, Instr::MemoryFill) == Some(
            if ctx.mems@.len() > 0 {
                Some((seq![ValType::I32, ValType::I32, ValType::I32], Seq::<ValType>::empty()))
            } else {
                None
            },
        ),
        bulk_type(ctx, Instr::MemoryCopy) == Some(
            if ctx.mems@.len() > 0 {
                Some((seq![ValType::I32, ValType::I32, ValType::I32], Seq::<ValType>::empty()))
            } else {
                None
            },
        ),
        ctx.mems@.len() > 0 && (ctx.datas matches Some(n) && x < n) ==> bulk_type(
            ctx,
            Instr::MemoryInit(x),
        ) == Some(Some((seq![ValType::I32, ValType::I32, ValType::I32], Seq::<ValType>::empty()))),
        ctx.mems@.len() == 0 ==> bulk_type(ctx, Instr::MemoryInit(x)) == Some(
            None::<(Seq<ValType>, Seq<ValType>)>,
        ),
        x < ctx.tables@.len() ==> bulk_type(ctx, Instr::TableGrow(x)) == Some(
            Some(
                (
                    seq![ctx.tables@[x as int].item.spec_valtype(), ValType::I32],
                    seq![ValType::I32],
                ),
            ),
        ),
        x < ctx.tables@.len() ==> bulk_type(ctx, Instr::TableSize(x)) == Some(
            Some((Seq::<ValType>::empty(), seq![ValType::I32])),
        ),
        x < ctx.tables@.len() ==> bulk_type(ctx, Instr::TableFill(x)) == Some(
            Some(
                (
                    seq![ValType::I32, ctx.tables@[x as int].item.spec_valtype(), ValType::I32],
                    Seq::<ValType>::empty(),
                ),
            ),
        ),
        x < ctx.tables@.len() && y < ctx.tables@.len() && ctx.tables@[x as int].item
            == ctx.tables@[y as int].item ==> bulk_type(ctx, Instr::TableCopy(x, y)) == Some(
            Some((seq![ValType::I32, ValType::I32, ValType::I32], Seq::<ValType>::empty())),
        ),
        x < ctx.tables@.len() && y < ctx.elems@.len() && ctx.tables@[x as int].item
            == ctx.elems@[y as int] ==> bulk_type(ctx, Instr::TableInit(x, y)) == Some(
            Some((seq![ValType::I32, ValType::I32, ValType::I32], Seq::<ValType>::empty())),
        ),
        x >= ctx.tables@.len() ==> bulk_type(ctx, Instr::TableSize(x)) == Some(
            None::<(Seq<ValType>, Seq<ValType>)>,
        ),
        y < ctx.elems@.len() ==> bulk_type(ctx, Instr::ElemDrop(y)) == Some(
            Some((Seq::<ValType>::empty(), Seq::<ValType>::empty())),
        ),
{
}

/// Popping operands then pushing none, or one `i32`, is applying the instruction type.
proof fn lemma_apply_pops(s: Seq<OpdType>, poly: bool, p: Seq<ValType>)
    ensures
        spec_apply(s, poly, p, seq![]) == spec_pops(s, poly, p),
        spec_apply(s, poly, p, seq![ValType::I32]) == match spec_pops(s, poly, p) {
            Some(s2) => Some(s2.push(OpdType::I32)),
            None => None,
        },
{
    assert(opds(seq![]) =~= Seq::<OpdType>::empty());
    assert(opds(seq![ValType::I32]) =~= seq![OpdType::I32]);
    if let Some(s2) = spec_pops(s, poly, p) {
        assert(s2 + opds(seq![]) =~= s2);
        assert(s2 + opds(seq![ValType::I32]) =~= s2.push(OpdType::I32));
    }
}

/// Whether `r` and `e1` are the outcome of checking an instruction of operand types `p` and
/// result types `q` in `e0`: the operands are popped from the innermost label and the results
/// pushed, or the instruction is invalid.
pub open spec fn typed_by(e0: Expr, e1: Expr, p: Seq<ValType>, q: Seq<ValType>, r: Result<(), Error>) -> bool {
    match spec_apply(e0.top().stack@, e0.top().polymorphic, p, q) {
        Some(st) => r is Ok && e0.with_top(&e1, st, e0.top().polymorphic),
        None => r == Err::<(), Error>(Error::Invalid),
    }
}

impl Expr {
    /// Pops operands of types `params` and pushes operands of types `results`.
    pub fn apply(&mut self, params: &Vec<ValType>, results: &Vec<ValType>) -> (r: Result<(), Error>)
        requires
            old(self).labels@.len() > 0,
        ensures
            old(self).with_top(final(self), final(self).top().stack@, final(self).top().polymorphic),
            final(self).top().polymorphic == old(self).top().polymorphic,
            match spec_apply(old(self).top().stack@, old(self).top().polymorphic, params@, results@) {
                Some(s) => r is Ok && final(self).top().stack@ == s,
                None => r == Err::<(), Error>(Error::Invalid),
            },
    {
        self.pops(params)?;
        self.pushs(results);
        Ok(())
    }

    /// Checks a call of a function of type `t`.
    pub fn call(&mut self, t: &FuncType) -> (r: Result<(), Error>)
        requires
            old(self).labels@.len() > 0,
        ensures
            old(self).with_top(final(self), final(self).top().stack@, final(self).top().polymorphic),
            final(self).top().polymorphic == old(self).top().polymorphic,
            match spec_apply(old(self).top().stack@, old(self).top().polymorphic, t@.params, t@.results) {
                Some(s) => r is Ok && final(self).top().stack@ == s,
                None => r == Err::<(), Error>(Error::Invalid),
            },
    {
        self.apply(&t.params.0, &t.results.0)
    }

    /// Checks a test operator on numbers of type `t`.
    pub fn testop(&mut self, t: crate::syntax::NumType) -> (r: Result<(), Error>)
        requires
            old(self).labels@.len() > 0,
        ensures
            old(self).with_top(final(self), final(self).top().stack@, final(self).top().polymorphic),
            final(self).top().polymorphic == old(self).top().polymorphic,
            match spec_apply(old(self).top().stack@, old(self).top().polymorphic, seq![t.spec_valtype()], seq![ValType::I32]) {
                Some(s) => r is Ok && final(self).top().stack@ == s,
                None => r == Err::<(), Error>(Error::Invalid),
            },
    {
        let params = vec![t.valtype()];
        let results = vec![ValType::I32];
        proof {
            assert(params@ =~= seq![t.spec_valtype()]);
            assert(results@ =~= seq![ValType::I32]);
        }
        self.apply(&params, &results)
    }

    /// Checks a comparison operator on numbers of type `t`.
    pub fn relop(&mut self, t: crate::syntax::NumType) -> (r: Result<(), Error>)
        requires
            old(self).labels@.len() > 0,
        ensures
            old(self).with_top(final(self), final(self).top().stack@, final(self).top().polymorphic),
            final(self).top().polymorphic == old(self).top().polymorphic,
            match spec_apply(old(self).top().stack@, old(self).top().polymorphic, seq![t.spec_valtype(), t.spec_valtype()], seq![ValType::I32]) {
                Some(s) => r is Ok && final(self).top().stack@ == s,
                None => r == Err::<(), Error>(Error::Invalid),
            },
    {
        let params = vec![t.valtype(), t.valtype()];
        let results = vec![ValType::I32];
        proof {
            assert(params@ =~= seq![t.spec_valtype(), t.spec_valtype()]);
            assert(results@ =~= seq![ValType::I32]);
        }
        self.apply(&params, &results)
    }

    /// Checks a unary operator on numbers of type `t`.
    pub fn unop(&mut self, t: crate::syntax::NumType) -> (r: Result<(), Error>)
        requires
            old(self).labels@.len() > 0,
        ensures
            old(self).with_top(final(self), final(self).top().stack@, final(self).top().polymorphic),
            final(self).top().polymorphic == old(self).top().polymorphic,
            match spec_apply(old(self).top().stack@, old(self).top().polymorphic, seq![t.spec_valtype()], seq![t.spec_valtype()]) {
                Some(s) => r is Ok && final(self).top().stack@ == s,
                None => r == Err::<(), Error>(Error::Invalid),
            },
    {
        self.cvtop(t, t)
    }

    /// Checks a binary operator on numbers of type `t`.
    pub fn binop(&mut self, t: crate::syntax::NumType) -> (r: Result<(), Error>)
        requires
            old(self).labels@.len() > 0,
        ensures
            old(self).with_top(final(self), final(self).top().stack@, final(self).top().polymorphic),
            final(self).top().polymorphic == old(self).top().polymorphic,
            match spec_apply(old(self).top().stack@, old(self).top().polymorphic, seq![t.spec_valtype(), t.spec_valtype()], seq![t.spec_valtype()]) {
                Some(s) => r is Ok && final(self).top().stack@ == s,
                None => r == Err::<(), Error>(Error::Invalid),
            },
    {
        let params = vec![t.valtype(), t.valtype()];
        let results = vec![t.valtype()];
        proof {
            assert(params@ =~= seq![t.spec_valtype(), t.spec_valtype()]);
            assert(results@ =~= seq![t.spec_valtype()]);
        }
        self.apply(&params, &results)
    }

    /// Checks a conversion from `src` to `dst`.
    pub fn cvtop(&mut self, dst: crate::syntax::NumType, src: crate::syntax::NumType) -> (r: Result<(), Error>)
        requires
            old(self).labels@.len() > 0,
        ensures
            old(self).with_top(final(self), final(self).top().stack@, final(self).top().polymorphic),
            final(self).top().polymorphic == old(self).top().polymorphic,
            match spec_apply(old(self).top().stack@, old(self).top().polymorphic, seq![src.spec_valtype()], seq![dst.spec_valtype()]) {
                Some(s) => r is Ok && final(self).top().stack@ == s,
                None => r == Err::<(), Error>(Error::Invalid),
            },
    {
        let params = vec![src.valtype()];
        let results = vec![dst.valtype()];
        proof {
            assert(params@ =~= seq![src.spec_valtype()]);
            assert(results@ =~= seq![dst.spec_valtype()]);
        }
        self.apply(&params, &results)
    }

    /// Checks the memory argument of an access of `n` bits.
    pub fn check_mem(ctx: &Context, aligned: bool, n: usize, m: crate::syntax::MemArg) -> (r: Result<(), Error>)
        ensures
            r == spec_check(ctx.mems@.len() > 0 && if aligned {
                align_bytes(m.align) == n / 8
            } else {
                align_bytes(m.align) <= n / 8
            }),
    {
        check(ctx.mems.len() > 0)?;
        let a: usize = if m.align == 0 {
            1
        } else if m.align == 1 {
            2
        } else if m.align == 2 {
            4
        } else if m.align == 3 {
            8
        } else {
            16
        };
        if aligned {
            check(a == n / 8)
        } else {
            check(a <= n / 8)
        }
    }

    /// Checks a load of `n` bits into a number of type `t`.
    pub fn load(&mut self, ctx: &Context, aligned: bool, t: crate::syntax::NumType, n: usize, m: crate::syntax::MemArg) -> (r: Result<(), Error>)
        requires
            old(self).labels@.len() > 0,
        ensures
            old(self).with_top(final(self), final(self).top().stack@, final(self).top().polymorphic),
            final(self).top().polymorphic == old(self).top().polymorphic,
            r is Ok <==> Self::check_mem_ok(ctx, aligned, n, m) && spec_apply(old(self).top().stack@, old(self).top().polymorphic, seq![ValType::I32], seq![t.spec_valtype()]) is Some,
            r is Ok ==> final(self).top().stack@ == spec_apply(old(self).top().stack@, old(self).top().polymorphic, seq![ValType::I32], seq![t.spec_valtype()])->Some_0,
            r is Err ==> r == Err::<(), Error>(Error::Invalid),
    {
        Self::check_mem(ctx, aligned, n, m)?;
        self.cvtop(t, crate::syntax::NumType::I32)
    }

    /// Checks a store of `n` bits of a number of type `t`.
    pub fn store(&mut self, ctx: &Context, aligned: bool, t: crate::syntax::NumType, n: usize, m: crate::syntax::MemArg) -> (r: Result<(), Error>)
        requires
            old(self).labels@.len() > 0,
        ensures
            old(self).with_top(final(self), final(self).top().stack@, final(self).top().polymorphic),
            final(self).top().polymorphic == old(self).top().polymorphic,
            r is Ok <==> Self::check_mem_ok(ctx, aligned, n, m) && spec_pops(old(self).top().stack@, old(self).top().polymorphic, seq![ValType::I32, t.spec_valtype()]) is Some,
            r is Ok ==> final(self).top().stack@ == spec_pops(old(self).top().stack@, old(self).top().polymorphic, seq![ValType::I32, t.spec_valtype()])->Some_0,
            r is Err ==> r == Err::<(), Error>(Error::Invalid),
    {
        Self::check_mem(ctx, aligned, n, m)?;
        let params = vec![ValType::I32, t.valtype()];
        proof {
            assert(params@ =~= seq![ValType::I32, t.spec_valtype()]);
        }
        self.pops(&params)
    }

    pub open spec fn check_mem_ok(ctx: &Context, aligned: bool, n: usize, m: crate::syntax::MemArg) -> bool {
        ctx.mems@.len() > 0 && if aligned {
            align_bytes(m.align) == n / 8
        } else {
            align_bytes(m.align) <= n / 8
        }
    }

    /// The type of a block.
    pub fn blocktype(ctx: &Context, b: crate::syntax::BlockType) -> (r: Result<FuncType, Error>)
        ensures
            match spec_blocktype(ctx.types@, b) {
                Some(t) => r matches Ok(u) && u@ == t,
                None => r == Err::<FuncType, Error>(Error::Invalid),
            },
    {
        match b {
            crate::syntax::BlockType::Empty => Ok(
                FuncType {
                    params: crate::syntax::ResultType::empty(),
                    results: crate::syntax::ResultType::empty(),
                },
            ),
            crate::syntax::BlockType::Type(t) => Ok(
                FuncType {
                    params: crate::syntax::ResultType::empty(),
                    results: crate::syntax::ResultType::single(t),
                },
            ),
            crate::syntax::BlockType::Index(x) => ctx.type_(x),
        }
    }

    /// The type of the local at index `x`.
    pub fn local(&self, x: u32) -> (r: Result<ValType, Error>)
        ensures
            match r {
                Ok(t) => x < self.locals@.len() && t == self.locals@[x as int],
                Err(e) => x >= self.locals@.len() && e == Error::Invalid,
            },
    {
        if (x as usize) < self.locals.len() {
            Ok(self.locals[x as usize])
        } else {
            Err(invalid())
        }
    }
}

impl Expr {
    /// A branch source at the current position, allocating its branch table entry.
    pub fn branch_source(&mut self, parser: &Parser) -> (r: Result<SideTableBranch, Error>)
        requires
            old(self).labels@.len() > 0,
            old(self).wf(),
        ensures
            final(self).labels@ == old(self).labels@,
            final(self).globals_len == old(self).globals_len,
            final(self).is_const == old(self).is_const,
            final(self).is_body == old(self).is_body,
            final(self).locals@ == old(self).locals@,
            final(self).wf(),
            r is Ok <==> old(self).top().prev_stack + old(self).top().stack@.len() <= usize::MAX,
            match r {
                Ok(b) => {
                    &&& b.parser == parser.pos()
                    &&& b.branch_table == old(self).branch_table@.len()
                    &&& b.stack == old(self).top().prev_stack + old(self).top().stack@.len()
                    &&& b.result == 0
                    &&& final(self).branch_table@.len() == old(self).branch_table@.len() + 1
                    &&& final(self).branch_table@.drop_last() == old(self).branch_table@
                },
                Err(e) => e == Error::Unsupported(Unsupported::SideTable) && final(self).branch_table@ == old(self).branch_table@,
            },
    {
        let k = self.labels.len() - 1;
        let prev = self.labels[k].prev_stack;
        let len = self.labels[k].stack.len();
        if prev > usize::MAX - len {
            return Err(unsupported(Unsupported::SideTable));
        }
        let b = SideTableBranch {
            parser: parser.position(),
            branch_table: self.branch_table.len(),
            stack: prev + len,
            result: 0,
        };
        self.branch_table.push(BranchTableEntry::invalid());
        proof {
            assert(self.branch_table@.drop_last() =~= old(self).branch_table@);
        }
        Ok(b)
    }

    /// A branch target at the current position, receiving `result` values.
    pub fn branch_target(&self, parser: &Parser, result: usize) -> (r: Result<SideTableBranch, Error>)
        requires
            self.labels@.len() > 0,
        ensures
            r is Ok <==> self.top().prev_stack + result <= usize::MAX,
            match r {
                Ok(b) => {
                    &&& b.parser == parser.pos()
                    &&& b.branch_table == self.branch_table@.len()
                    &&& b.stack == self.top().prev_stack + result
                    &&& b.result == result
                },
                Err(e) => e == Error::Unsupported(Unsupported::SideTable),
            },
    {
        let k = self.labels.len() - 1;
        let prev = self.labels[k].prev_stack;
        if prev > usize::MAX - result {
            return Err(unsupported(Unsupported::SideTable));
        }
        Ok(SideTableBranch {
            parser: parser.position(),
            branch_table: self.branch_table.len(),
            stack: prev + result,
            result,
        })
    }

    /// Enters a block of type `type_`.
    pub fn push_label(&mut self, type_: FuncType, kind: LabelKind) -> (r: Result<(), Error>)
        requires
            old(self).labels@.len() > 0,
            old(self).wf(),
            !old(self).is_const,
            match kind {
                LabelKind::If(s) => s.branch_table < old(self).branch_table@.len(),
                LabelKind::Loop(t) => t.result <= t.stack,
                LabelKind::Block => true,
            },
        ensures
            final(self).same_fields(old(self)),
            r is Ok ==> final(self).wf(),
            final(self).labels@.len() > 0,
            match r {
                Ok(()) => {
                    let s = spec_pops(
                        old(self).top().stack@,
                        old(self).top().polymorphic,
                        type_@.params,
                    );
                    let n = old(self).labels@.len();
                    &&& s is Some
                    &&& final(self).labels@.len() == n + 1
                    &&& final(self).labels@.take(n - 1) == old(self).labels@.drop_last()
                    &&& label_with_stack(
                        old(self).top(),
                        final(self).labels@[n - 1],
                        s->Some_0,
                        old(self).top().polymorphic,
                    )
                    &&& final(self).top().type_ == type_
                    &&& final(self).top().kind == kind
                    &&& !final(self).top().polymorphic
                    &&& final(self).top().stack@ == opds(type_@.params)
                    &&& final(self).top().branches@.len() == 0
                    &&& final(self).top().prev_stack == old(self).top().prev_stack + s->Some_0.len()
                },
                Err(e) => e == Error::Invalid || e == Error::Unsupported(Unsupported::SideTable),
            },
    {
        self.pops(&type_.params.0)?;
        proof {
            lemma_with_top_wf(old(self), self, self.top().stack@, self.top().polymorphic);
        }
        let k = self.labels.len() - 1;
        let prev = self.labels[k].prev_stack;
        let len = self.labels[k].stack.len();
        if prev > usize::MAX - len {
            return Err(unsupported(Unsupported::SideTable));
        }
        let ghost before = self.labels@;
        let mut stack: Vec<OpdType> = Vec::new();
        let mut i: usize = 0;
        while i < type_.params.0.len()
            invariant
                i <= type_@.params.len(),
                stack@ == opds(type_@.params.take(i as int)),
            decreases type_@.params.len() - i,
        {
            stack.push(OpdType::from_valtype(type_.params.0[i]));
            i = i + 1;
            proof {
                assert(opds(type_@.params.take(i as int)) =~= opds(type_@.params.take(i - 1)).push(
                    opd(type_@.params[i - 1]),
                ));
            }
        }
        proof {
            assert(type_@.params.take(i as int) =~= type_@.params);
        }
        let label = Label {
            type_,
            kind,
            polymorphic: false,
            stack,
            branches: Vec::new(),
            prev_stack: prev + len,
        };
        self.labels.push(label);
        proof {
            let n = old(self).labels@.len();
            assert(self.labels@.take(n - 1) =~= before.drop_last());
            assert(self.labels@[n - 1] == before[n - 1]);
            assert forall|i: int| 0 <= i < self.labels@.len() - 1 implies self.labels@[i]
                == before[i] by {}
        }
        Ok(())
    }

    /// Leaves the innermost block after its `end`, stitching the branches to its end.
    pub fn end_label(&mut self, parser: &Parser) -> (r: Result<(), Error>)
        requires
            old(self).labels@.len() > 0,
            old(self).wf(),
            parser.pos() >= 1,
        ensures
            old(self).is_const ==> (r is Ok <==> spec_pops(
                old(self).top().stack@,
                old(self).top().polymorphic,
                old(self).top().type_@.results,
            ) == Some(Seq::<OpdType>::empty())),
            final(self).same_fields_but_table(old(self)),
            final(self).branch_table@.len() == old(self).branch_table@.len(),
            r is Ok ==> final(self).wf(),
            match r {
                Ok(()) => {
                    let n = old(self).labels@.len();
                    let top = old(self).top();
                    &&& final(self).labels@.len() == n - 1
                    &&& spec_pops(top.stack@, top.polymorphic, top.type_@.results) == Some(
                        Seq::<OpdType>::empty(),
                    )
                    &&& (!old(self).is_const && top.kind is If) ==> top.type_@.params
                        == top.type_@.results
                    &&& n > 1 ==> final(self).labels@.drop_last() == old(self).labels@.drop_last().drop_last() && label_with_stack(
                        old(self).labels@[n - 2],
                        final(self).top(),
                        old(self).labels@[n - 2].stack@ + opds(top.type_@.results),
                        old(self).labels@[n - 2].polymorphic,
                    )
                },
                Err(e) => e == Error::Invalid || e == Error::Unsupported(Unsupported::SideTable),
            },
    {
        let k = self.labels.len() - 1;
        if !self.is_const {
            let results_len = self.labels[k].type_.results.0.len();
            let target = self.branch_target(parser, results_len)?;
            let mut j: usize = 0;
            while j < self.labels[k].branches.len()
                invariant
                    self.wf(),
                    k == self.labels@.len() - 1,
                    self.labels@ == old(self).labels@,
                    self.same_fields_but_table(old(self)),
                    self.branch_table@.len() == old(self).branch_table@.len(),
                    target.result <= target.stack,
                    j <= self.labels@[k as int].branches@.len(),
                decreases self.labels@[k as int].branches@.len() - j,
            {
                let source = self.labels[k].branches[j];
                proof {
                    assert(self.labels@[k as int].branches@[j as int].branch_table < self.branch_table@.len());
                }
                stitch_branch(&mut self.branch_table, source, target)?;
                j = j + 1;
            }
            match self.labels[k].kind {
                LabelKind::If(source) => {
                    check(self.labels[k].type_.params.same(&self.labels[k].type_.results))?;
                    let t2 = SideTableBranch {
                        parser: target.parser - 1,
                        branch_table: target.branch_table,
                        stack: target.stack,
                        result: target.result,
                    };
                    stitch_branch(&mut self.branch_table, source, t2)?;
                },
                _ => {},
            }
        }
        let results = self.labels[k].type_.results.copy();
        let ghost mid = *self;
        self.pops(&results.0)?;
        let ghost after = *self;
        proof {
            lemma_with_top_wf(&mid, &after, after.top().stack@, after.top().polymorphic);
        }
        let label = self.labels.pop().unwrap();
        proof {
            assert(label == after.top());
            if old(self).is_const {
                assert(mid.top() == old(self).top());
            }
            if label.stack@.len() == 0 {
                assert(label.stack@ =~= Seq::<OpdType>::empty());
            }
        }
        check(label.stack.len() == 0)?;
        let ghost popped = *self;
        proof {
            assert(popped.labels@ == after.labels@.drop_last());
            assert forall|i: int| 0 <= i < popped.labels@.len() implies popped.labels@[i]
                == after.labels@[i] by {}
            assert(popped.wf());
        }
        if self.labels.len() > 0 {
            self.pushs(&results.0);
            proof {
                lemma_with_top_wf(&popped, self, self.top().stack@, self.top().polymorphic);
            }
        }
        Ok(())
    }

    /// The fields other than the labels and the branch table are unchanged.
    pub open spec fn same_fields_but_table(&self, other: &Expr) -> bool {
        &&& self.globals_len == other.globals_len
        &&& self.is_const == other.is_const
        &&& self.is_body == other.is_body
        &&& self.locals@ == other.locals@
    }
}

/// Whether the labels of `b` are those of `a`, but for added branches.
pub open spec fn same_stacks(a: Seq<Label>, b: Seq<Label>) -> bool {
    &&& a.len() == b.len()
    &&& forall|i: int|
        0 <= i < a.len() ==> {
            &&& (#[trigger] b[i]).type_ == a[i].type_
            &&& b[i].kind == a[i].kind
            &&& b[i].polymorphic == a[i].polymorphic
            &&& b[i].stack == a[i].stack
            &&& b[i].prev_stack == a[i].prev_stack
        }
}

impl Expr {
    /// Records a branch to the label at depth `l` and returns the types it expects.
    pub fn br_label(&mut self, parser: &Parser, l: u32) -> (r: Result<Vec<ValType>, Error>)
        requires
            old(self).labels@.len() > 0,
            old(self).wf(),
            !old(self).is_const,
        ensures
            final(self).same_fields_but_table(old(self)),
            same_stacks(old(self).labels@, final(self).labels@),
            r is Ok ==> final(self).wf(),
            r is Ok <==> l < old(self).labels@.len() && branch_fits(
                *old(self),
                old(self).branch_table@.len() as int,
                old(self).top().stack@.len() as int,
                parser.pos(),
                l as int,
            ),
            l >= old(self).labels@.len() ==> r == Err::<Vec<ValType>, Error>(Error::Invalid),
            match r {
                Ok(ts) => {
                    let n = old(self).labels@.len();
                    let label = old(self).labels@[n - l - 1];
                    &&& l < n
                    &&& ts@ == if label.kind is Loop {
                        label.type_@.params
                    } else {
                        label.type_@.results
                    }
                    &&& final(self).branch_table@.len() == old(self).branch_table@.len() + 1
                },
                Err(e) => e == Error::Invalid || e == Error::Unsupported(Unsupported::SideTable),
            },
    {
        let n = self.labels.len();
        check((l as usize) < n)?;
        let source = self.branch_source(parser)?;
        let i = n - (l as usize) - 1;
        let ghost before = *self;
        match self.labels[i].kind {
            LabelKind::Loop(target) => {
                proof {
                    assert(self.labels@[i as int].kind == LabelKind::Loop(target));
                }
                stitch_branch(&mut self.branch_table, source, target)?;
                Ok(self.labels[i].type_.params.copy().0)
            },
            _ => {
                let mut label = self.labels.remove(i);
                label.branches.push(source);
                let ts = label.type_.results.copy().0;
                self.labels.insert(i, label);
                proof {
                    assert forall|j: int| 0 <= j < self.labels@.len() implies {
                        &&& (#[trigger] self.labels@[j]).type_ == before.labels@[j].type_
                        &&& self.labels@[j].kind == before.labels@[j].kind
                        &&& self.labels@[j].polymorphic == before.labels@[j].polymorphic
                        &&& self.labels@[j].stack == before.labels@[j].stack
                        &&& self.labels@[j].prev_stack == before.labels@[j].prev_stack
                        &&& (j != i ==> self.labels@[j] == before.labels@[j])
                    } by {
                        if j < i {
                            assert(self.labels@[j] == before.labels@.remove(i as int)[j]);
                        } else if j > i {
                            assert(self.labels@[j] == before.labels@.remove(i as int)[j - 1]);
                        }
                    }
                    assert(self.labels@[i as int].branches@ == before.labels@[i as int].branches@.push(source));
                    assert forall|a: int, b: int|
                        0 <= a < self.labels@.len() && 0 <= b < self.labels@[a].branches@.len()
                            implies (#[trigger] self.labels@[a].branches@[b]).branch_table
                        < self.branch_table@.len() by {
                        if a == i && b == before.labels@[i as int].branches@.len() {
                        } else {
                            assert(self.labels@[a].branches@[b] == before.labels@[a].branches@[b]);
                        }
                    }
                }
                Ok(ts)
            },
        }
    }
}

impl Expr {
    /// Changes the kind of the innermost label.
    pub fn set_top_kind(&mut self, kind: LabelKind)
        requires
            old(self).labels@.len() > 0,
            old(self).wf(),
            kind == LabelKind::Block || !old(self).is_const,
            match kind {
                LabelKind::If(s) => s.branch_table < old(self).branch_table@.len(),
                LabelKind::Loop(t) => t.result <= t.stack,
                LabelKind::Block => true,
            },
        ensures
            final(self).wf(),
            final(self).same_fields(old(self)),
            final(self).labels@.len() == old(self).labels@.len(),
            final(self).labels@.drop_last() == old(self).labels@.drop_last(),
            final(self).top().type_ == old(self).top().type_,
            final(self).top().kind == kind,
            final(self).top().polymorphic == old(self).top().polymorphic,
            final(self).top().stack == old(self).top().stack,
            final(self).top().branches == old(self).top().branches,
            final(self).top().prev_stack == old(self).top().prev_stack,
    {
        let mut label = self.labels.pop().unwrap();
        label.kind = kind;
        self.labels.push(label);
        proof {
            assert(self.labels@.drop_last() =~= old(self).labels@.drop_last());
            assert forall|i: int| 0 <= i < self.labels@.len() - 1 implies self.labels@[i]
                == old(self).labels@[i] by {
                assert(self.labels@[i] == self.labels@.drop_last()[i]);
                assert(old(self).labels@[i] == old(self).labels@.drop_last()[i]);
            }
        }
    }

    /// Validates `else`.
    fn else_(&mut self, ctx: &Context, parser: &Parser) -> (r: Result<(), Error>)
        requires
            old(self).labels@.len() > 0,
            old(self).wf(),
            !old(self).is_const,
        ensures
            final(self).same_fields_but_table(old(self)),
            r is Ok ==> final(self).wf() && final(self).labels@.len() == old(self).labels@.len(),
            control_typed(*old(self), *final(self), *ctx, Instr::Else, r),
            r is Ok <==> else_ok(*old(self), parser.pos()),
    {
        let ghost e0 = *self;
        let k = self.labels.len() - 1;
        let source = match self.labels[k].kind {
            LabelKind::If(source) => source,
            _ => return Err(invalid()),
        };
        let result = self.labels[k].type_.results.0.len();
        let target = self.branch_target(parser, result)?;
        if target.branch_table == usize::MAX {
            return Err(unsupported(Unsupported::SideTable));
        }
        let target = SideTableBranch {
            parser: target.parser,
            branch_table: target.branch_table + 1,
            stack: target.stack,
            result: target.result,
        };
        stitch_branch(&mut self.branch_table, source, target)?;
        let ghost e1 = *self;
        self.set_top_kind(LabelKind::Block);
        let params = self.labels[k].type_.params.copy();
        let results = self.labels[k].type_.results.copy();
        let ghost e2 = *self;
        self.pops(&results.0)?;
        check(self.labels[k].stack.len() == 0)?;
        let ghost e3 = *self;
        self.set_top_stack(Vec::new(), false);
        let ghost e4 = *self;
        self.pushs(&params.0);
        proof {
            assert(e1.labels@ == e0.labels@);
            assert(e3.top().stack@ =~= Seq::<OpdType>::empty());
            assert(e4.top().stack@ + opds(params@) =~= opds(params@));
            lemma_with_top_wf(&e2, self, self.top().stack@, self.top().polymorphic);
        }
        let ghost e5 = *self;
        self.br_label(parser, 0)?;
        proof {
            assert(self.labels@[k as int].stack == e5.labels@[k as int].stack);
        }
        Ok(())
    }

    /// Validates `br_if l`.
    fn br_if(&mut self, ctx: &Context, parser: &Parser, l: u32) -> (r: Result<(), Error>)
        requires
            old(self).labels@.len() > 0,
            old(self).wf(),
            !old(self).is_const,
        ensures
            final(self).same_fields_but_table(old(self)),
            r is Ok ==> final(self).wf() && final(self).labels@.len() == old(self).labels@.len(),
            control_typed(*old(self), *final(self), *ctx, Instr::BrIf(l), r),
            r is Ok <==> br_if_ok(*old(self), parser.pos(), l as int),
    {
        let ghost base = *self;
        self.pop_check(ValType::I32)?;
        proof {
            lemma_with_top_wf(&base, self, self.top().stack@, self.top().polymorphic);
            lemma_with_top_types(&base, self, self.top().stack@, self.top().polymorphic);
            let n = base.labels@.len() as int;
            if l < n {
                assert(self.labels@[n - l - 1].kind == base.labels@[n - l - 1].kind);
            }
            assert(branch_fits(*self, self.branch_table@.len() as int, self.top().stack@.len() as int, parser.pos(), l as int)
                == branch_fits(base, base.branch_table@.len() as int, self.top().stack@.len() as int, parser.pos(), l as int));
        }
        let ghost p = *self;
        let res = self.br_label(parser, l)?;
        let ghost mid = *self;
        proof {
            let n = base.labels@.len() as int;
            let k = n - l - 1;
            if k < n - 1 {
                assert(p.labels@[k] == p.labels@.drop_last()[k]);
                assert(base.labels@[k] == base.labels@.drop_last()[k]);
            }
            assert(mid.labels@[n - 1].stack == p.labels@[n - 1].stack);
            assert(mid.labels@[n - 1].polymorphic == p.labels@[n - 1].polymorphic);
        }
        self.swaps(&res)?;
        proof {
            lemma_with_top_wf(&mid, self, self.top().stack@, self.top().polymorphic);
        }
        Ok(())
    }

    /// Validates `br_table ls ln`.
    fn br_table(&mut self, parser: &Parser, ls: &Vec<u32>, ln: u32) -> (r: Result<(), Error>)
        requires
            old(self).labels@.len() > 0,
            old(self).wf(),
            !old(self).is_const,
        ensures
            final(self).same_fields_but_table(old(self)),
            r is Ok ==> final(self).wf() && final(self).labels@.len() == old(self).labels@.len(),
            br_table_typed(*old(self), *final(self), ls@, ln, r),
            r is Ok <==> br_table_ok(*old(self), parser.pos(), ls@, ln),
    {
        let ghost e0 = *self;
        let ghost n = self.labels@.len();
        let ghost poly = self.top().polymorphic;
        let ghost bt = self.branch_table@.len() as int;
        self.pop_check(ValType::I32)?;
        proof {
            lemma_with_top_wf(&e0, self, self.top().stack@, self.top().polymorphic);
            lemma_with_top_types(&e0, self, self.top().stack@, self.top().polymorphic);
            if ln < n {
                assert(self.labels@[n - ln - 1].kind == e0.labels@[n - ln - 1].kind);
            }
            assert(branch_fits(*self, bt, self.top().stack@.len() as int, parser.pos(), ln as int)
                == branch_fits(e0, bt, self.top().stack@.len() as int, parser.pos(), ln as int));
        }
        let ghost s0 = self.top().stack@;
        let tn = self.br_label(parser, ln)?;
        let ghost mid = *self;
        self.peeks(&tn)?;
        proof {
            lemma_with_top_wf(&mid, self, self.top().stack@, self.top().polymorphic);
            lemma_with_top_types(&mid, self, self.top().stack@, self.top().polymorphic);
        }
        let ghost s1 = self.top().stack@;
        proof {
            assert(spec_fill(s0, poly, tn@.len()) == Some(s1));
            assert(br_table_ok(e0, parser.pos(), ls@, ln) == (forall|j: int| 0 <= j < ls@.len()
                ==> br_table_label_ok(e0, bt + 1 + j, s1, parser.pos(), #[trigger] ls@[j], tn@)));
        }
        let mut i: usize = 0;
        while i < ls.len()
            invariant
                self.wf(),
                self.labels@.len() == n,
                n == e0.labels@.len(),
                n > 0,
                !self.is_const,
                self.same_fields_but_table(old(self)),
                e0 == *old(self),
                i <= ls@.len(),
                ln < n,
                tn@ == label_types(e0, ln as int),
                self.top().stack@ == s1,
                self.top().polymorphic == poly,
                self.top().prev_stack == e0.top().prev_stack,
                self.branch_table@.len() == bt + 1 + i,
                s1.len() >= tn@.len(),
                forall|k: int| 0 <= k < n ==> (#[trigger] self.labels@[k]).type_ == e0.labels@[k].type_
                    && self.labels@[k].kind == e0.labels@[k].kind,
                forall|j: int| 0 <= j < i ==> br_table_label_ok(e0, bt + 1 + j, s1, parser.pos(), #[trigger] ls@[j], tn@),
                br_table_ok(e0, parser.pos(), ls@, ln) == (forall|j: int| 0 <= j < ls@.len()
                    ==> br_table_label_ok(e0, bt + 1 + j, s1, parser.pos(), #[trigger] ls@[j], tn@)),
            decreases ls@.len() - i,
        {
            proof {
                let l = ls@[i as int];
                if l < n {
                    assert(self.labels@[n - l - 1].kind == e0.labels@[n - l - 1].kind);
                    assert(self.labels@[n - l - 1].type_ == e0.labels@[n - l - 1].type_);
                }
                assert(branch_fits(*self, bt + 1 + i, s1.len() as int, parser.pos(), l as int)
                    == branch_fits(e0, bt + 1 + i, s1.len() as int, parser.pos(), l as int));
            }
            let t = self.br_label(parser, ls[i])?;
            check(tn.len() == t.len())?;
            let ghost mid = *self;
            self.peeks(&t)?;
            proof {
                lemma_with_top_wf(&mid, self, self.top().stack@, self.top().polymorphic);
                lemma_with_top_types(&mid, self, self.top().stack@, self.top().polymorphic);
                assert(br_table_label_ok(e0, bt + 1 + i, s1, parser.pos(), ls@[i as int], tn@));
            }
            i = i + 1;
        }
        let ghost before = *self;
        self.stack_polymorphic();
        proof {
            lemma_with_top_wf(&before, self, self.top().stack@, self.top().polymorphic);
        }
        Ok(())
    }

    /// Validates `return`.
    fn return_(&mut self, ctx: &Context) -> (r: Result<(), Error>)
        requires
            old(self).labels@.len() > 0,
            old(self).wf(),
        ensures
            final(self).same_fields_but_table(old(self)),
            r is Ok ==> final(self).wf() && final(self).labels@.len() == old(self).labels@.len(),
            control_typed(*old(self), *final(self), *ctx, Instr::Return, r),
            r is Ok <==> old(self).is_body && spec_pops(
                old(self).top().stack@,
                old(self).top().polymorphic,
                old(self).labels@[0].type_@.results,
            ) is Some,
            r is Err ==> r == Err::<(), Error>(Error::Invalid),
    {
        check(self.is_body)?;
        let res = self.labels[0].type_.results.copy();
        let ghost base = *self;
        self.pops(&res.0)?;
        self.stack_polymorphic();
        proof {
            lemma_with_top_wf(&base, self, self.top().stack@, self.top().polymorphic);
        }
        Ok(())
    }

    /// Validates `call_indirect y x` (type `y`, table `x`).
    fn call_indirect(&mut self, ctx: &Context, x: u32, y: u32) -> (r: Result<(), Error>)
        requires
            old(self).labels@.len() > 0,
            old(self).wf(),
        ensures
            final(self).same_fields_but_table(old(self)),
            r is Ok ==> final(self).wf() && final(self).labels@.len() == old(self).labels@.len(),
            control_typed(*old(self), *final(self), *ctx, Instr::CallIndirect(x, y), r),
            r is Ok <==> call_indirect_ok(*old(self), *ctx, x, y),
            r is Err ==> r == Err::<(), Error>(Error::Invalid),
    {
        let tt = ctx.table(x)?;
        check(tt.item == RefType::FuncRef)?;
        let ghost base = *self;
        self.pop_check(ValType::I32)?;
        let t = ctx.type_(y)?;
        let ghost mid = *self;
        self.call(&t)?;
        proof {
            lemma_with_top_wf(&base, self, self.top().stack@, self.top().polymorphic);
        }
        Ok(())
    }

    /// Validates a control instruction.
    pub fn control(&mut self, ctx: &Context, parser: &Parser, refs: &mut Vec<bool>, instr: Instr, saved: usize) -> (r: Result<(), Error>)
        requires
            old(self).labels@.len() > 0,
            old(self).wf(),
            parser.wf(),
            parser.pos() >= 1,
            old(refs)@.len() == ctx.funcs@.len(),
            old(self).globals_len <= ctx.globals@.len(),
            old(self).is_const ==> (instr is GlobalGet || instr is I32Const || instr is I64Const
                || instr is F32Const || instr is F64Const || instr is RefNull || instr is RefFunc),
            !(instr is End),
        ensures
            final(self).same_fields_but_table(old(self)),
            final(refs)@.len() == old(refs)@.len(),
            forall|i: int| 0 <= i < old(refs)@.len() && old(refs)@[i] ==> #[trigger] final(refs)@[i],
            !old(self).is_const ==> final(refs)@ == old(refs)@,
            r is Ok ==> {
                &&& final(self).wf()
                &&& final(self).labels@.len() >= old(self).labels@.len()
                &&& final(self).labels@.len() > 0
            },
            control_typed(*old(self), *final(self), *ctx, instr, r),
            instr matches Instr::BrTable(ls, ln) ==> br_table_typed(*old(self), *final(self), ls@, ln, r),
    {
        let ghost mut base = *self;
        match instr {
            Instr::Unreachable => self.stack_polymorphic(),
            Instr::Nop => {},
            Instr::Block(b) => {
                let t = Self::blocktype(ctx, b)?;
                self.push_label(t, LabelKind::Block)?;
                proof {
                    base = *self;
                }
            },
            Instr::Loop(b) => {
                let t = Self::blocktype(ctx, b)?;
                let target = self.branch_target(parser, t.params.0.len())?;
                let target = SideTableBranch {
                    parser: saved,
                    branch_table: target.branch_table,
                    stack: target.stack,
                    result: target.result,
                };
                self.push_label(t, LabelKind::Loop(target))?;
                proof {
                    base = *self;
                }
            },
            Instr::If(b) => {
                self.pop_check(ValType::I32)?;
                proof {
                    lemma_with_top_wf(&base, self, self.top().stack@, self.top().polymorphic);
                }
                let branch = self.branch_source(parser)?;
                let t = Self::blocktype(ctx, b)?;
                self.push_label(t, LabelKind::If(branch))?;
                proof {
                    base = *self;
                }
            },
            Instr::Else => {
                self.else_(ctx, parser)?;
                proof {
                    base = *self;
                }
            },
            Instr::Br(l) => {
                let res = self.br_label(parser, l)?;
                proof {
                    base = *self;
                }
                self.pops(&res)?;
                self.stack_polymorphic();
            },
            Instr::BrIf(l) => {
                self.br_if(ctx, parser, l)?;
                proof {
                    base = *self;
                }
            },
            Instr::BrTable(ls, ln) => {
                self.br_table(parser, &ls, ln)?;
                proof {
                    base = *self;
                }
            },
            Instr::Return => {
                self.return_(ctx)?;
                proof {
                    base = *self;
                }
            },
            Instr::Call(x) => {
                let t = ctx.functype(x)?;
                self.call(&t)?;
            },
            Instr::CallIndirect(x, y) => {
                self.call_indirect(ctx, x, y)?;
                proof {
                    base = *self;
                }
            },
            _ => {},
        }
        proof {
            lemma_with_top_wf(&base, self, self.top().stack@, self.top().polymorphic);
        }
        Ok(())
    }

    /// Validates a parametric, variable or memory access instruction.
    #[verifier::rlimit(40)]
    pub fn variable(&mut self, ctx: &Context, parser: &Parser, refs: &mut Vec<bool>, instr: Instr) -> (r: Result<(), Error>)
        requires
            old(self).labels@.len() > 0,
            old(self).wf(),
            parser.wf(),
            parser.pos() >= 1,
            old(refs)@.len() == ctx.funcs@.len(),
            old(self).globals_len <= ctx.globals@.len(),
            old(self).is_const ==> (instr is GlobalGet || instr is I32Const || instr is I64Const
                || instr is F32Const || instr is F64Const || instr is RefNull || instr is RefFunc),
        ensures
            final(self).same_fields_but_table(old(self)),
            final(refs)@.len() == old(refs)@.len(),
            forall|i: int| 0 <= i < old(refs)@.len() && old(refs)@[i] ==> #[trigger] final(refs)@[i],
            !old(self).is_const ==> final(refs)@ == old(refs)@,
            r is Ok ==> {
                &&& final(self).wf()
                &&& final(self).labels@.len() >= old(self).labels@.len()
                &&& final(self).labels@.len() > 0
            },
            match variable_type(*old(self), *ctx, instr) {
                Some(Some((p, q))) => typed_by(*old(self), *final(self), p, q, r),
                Some(None) => r == Err::<(), Error>(Error::Invalid),
                None => true,
            },
    {
        let ghost mut base = *self;
        proof {
            let (st, poly) = (base.top().stack@, base.top().polymorphic);
            lemma_apply_push(st, poly, ValType::I32);
            match instr {
                Instr::LocalGet(x) => if x < base.locals@.len() {
                    lemma_apply_push(st, poly, base.locals@[x as int]);
                },
                Instr::LocalSet(x) => if x < base.locals@.len() {
                    lemma_apply_pop(st, poly, base.locals@[x as int]);
                },
                Instr::GlobalGet(x) => if x < ctx.globals@.len() {
                    lemma_apply_push(st, poly, ctx.globals@[x as int].value);
                },
                Instr::GlobalSet(x) => if x < ctx.globals@.len() {
                    lemma_apply_pop(st, poly, ctx.globals@[x as int].value);
                },
                Instr::IStore(n, _) => {
                    lemma_apply_no_results(st, poly, seq![ValType::I32, num_val(NumType::spec_i(n))]);
                },
                Instr::FStore(n, _) => {
                    lemma_apply_no_results(st, poly, seq![ValType::I32, num_val(NumType::spec_f(n))]);
                },
                Instr::IStore_(b, _) => {
                    lemma_apply_no_results(st, poly, seq![ValType::I32, num_val(NumType::spec_i(b.spec_nx()))]);
                },
                _ => {},
            }
        }
        match instr {
            Instr::Drop => {
                self.pop()?;
            },
            Instr::Select(None) => {
                self.pop_check(ValType::I32)?;
                let a = self.pop()?;
                let b = self.pop()?;
                let t = a.unify(b)?;
                check(t.is_num() || t.is_vec())?;
                self.push(t);
            },
            Instr::Select(Some(t)) => {
                check(t.len() == 1)?;
                let t0 = t.get(0);
                let params = vec![t0, t0, ValType::I32];
                let results = vec![t0];
                self.apply(&params, &results)?;
            },
            Instr::LocalGet(x) => {
                let t = self.local(x)?;
                self.push(OpdType::from_valtype(t));
            },
            Instr::LocalSet(x) => {
                let t = self.local(x)?;
                self.pop_check(t)?;
            },
            Instr::LocalTee(x) => {
                let t = self.local(x)?;
                self.swap(t)?;
            },
            Instr::GlobalGet(x) => {
                let g = ctx.global(x)?;
                self.push(OpdType::from_valtype(g.value));
            },
            Instr::GlobalSet(x) => {
                let g = ctx.global(x)?;
                check(g.mutable == Mut::Var)?;
                self.pop_check(g.value)?;
            },
            Instr::TableGet(x) => {
                self.pop_check(ValType::I32)?;
                let t = ctx.table(x)?;
                self.push(OpdType::from_valtype(t.item.valtype()));
            },
            Instr::TableSet(x) => {
                let t = ctx.table(x)?;
                let params = vec![ValType::I32, t.item.valtype()];
                self.pops(&params)?;
            },
            Instr::ILoad(n, m) => self.load(ctx, false, NumType::i(n), n.bits(), m)?,
            Instr::FLoad(n, m) => self.load(ctx, false, NumType::f(n), n.bits(), m)?,
            Instr::ILoad_(b, _, m) => self.load(ctx, false, NumType::i(b.nx()), b.bits(), m)?,
            Instr::IStore(n, m) => self.store(ctx, false, NumType::i(n), n.bits(), m)?,
            Instr::FStore(n, m) => self.store(ctx, false, NumType::f(n), n.bits(), m)?,
            Instr::IStore_(b, m) => self.store(ctx, false, NumType::i(b.nx()), b.bits(), m)?,
            Instr::MemorySize => {
                check(ctx.mems.len() > 0)?;
                self.push(OpdType::I32);
            },
            Instr::MemoryGrow => {
                check(ctx.mems.len() > 0)?;
                self.swap(ValType::I32)?;
            },
            _ => {},
        }
        proof {
            lemma_with_top_wf(&base, self, self.top().stack@, self.top().polymorphic);
        }
        Ok(())
    }

    /// Validates a bulk memory or table instruction, or a data or element drop.
    #[verifier::rlimit(50)]
    #[verifier::spinoff_prover]
    fn bulk(&mut self, ctx: &Context, instr: Instr) -> (r: Result<(), Error>)
        requires
            old(self).labels@.len() > 0,
            bulk_type(*ctx, instr) is Some,
        ensures
            old(self).with_top(final(self), final(self).top().stack@, final(self).top().polymorphic),
            final(self).top().polymorphic == old(self).top().polymorphic,
            match bulk_type(*ctx, instr) {
                Some(Some((p, q))) => typed_by(*old(self), *final(self), p, q, r),
                Some(None) => r == Err::<(), Error>(Error::Invalid),
                None => true,
            },
    {
        proof {
            let (st, poly) = (self.top().stack@, self.top().polymorphic);
            if let Some(Some((p, q))) = bulk_type(*ctx, instr) {
                lemma_apply_pops(st, poly, p);
            }
            assert(self.labels@.drop_last() =~= self.labels@.drop_last());
        }
        match instr {
            Instr::MemoryInit(x) => {
                check(ctx.mems.len() > 0)?;
                ctx.data(x)?;
                let params = vec![ValType::I32, ValType::I32, ValType::I32];
                self.pops(&params)?;
            },
            Instr::DataDrop(x) => ctx.data(x)?,
            Instr::MemoryCopy => {
                check(ctx.mems.len() > 0)?;
                let params = vec![ValType::I32, ValType::I32, ValType::I32];
                self.pops(&params)?;
            },
            Instr::MemoryFill => {
                check(ctx.mems.len() > 0)?;
                let params = vec![ValType::I32, ValType::I32, ValType::I32];
                self.pops(&params)?;
            },
            Instr::TableInit(x, y) => {
                let t = ctx.table(x)?;
                let e = ctx.elem(y)?;
                check(t.item == e)?;
                let params = vec![ValType::I32, ValType::I32, ValType::I32];
                self.pops(&params)?;
            },
            Instr::ElemDrop(x) => {
                ctx.elem(x)?;
            },
            Instr::TableCopy(x, y) => {
                let a = ctx.table(x)?;
                let b = ctx.table(y)?;
                check(a.item == b.item)?;
                let params = vec![ValType::I32, ValType::I32, ValType::I32];
                self.pops(&params)?;
            },
            Instr::TableGrow(x) => {
                let t = ctx.table(x)?;
                let params = vec![t.item.valtype(), ValType::I32];
                self.pops(&params)?;
                self.push(OpdType::I32);
            },
            Instr::TableSize(x) => {
                ctx.table(x)?;
                self.push(OpdType::I32);
            },
            Instr::TableFill(x) => {
                let t = ctx.table(x)?;
                let params = vec![ValType::I32, t.item.valtype(), ValType::I32];
                self.pops(&params)?;
            },
            _ => {},
        }
        Ok(())
    }

    /// Validates a numeric, reference, table or bulk memory instruction.
    pub fn other(&mut self, ctx: &Context, parser: &Parser, refs: &mut Vec<bool>, instr: Instr) -> (r: Result<(), Error>)
        requires
            old(self).labels@.len() > 0,
            old(self).wf(),
            parser.wf(),
            parser.pos() >= 1,
            old(refs)@.len() == ctx.funcs@.len(),
            old(self).globals_len <= ctx.globals@.len(),
            old(self).is_const ==> (instr is GlobalGet || instr is I32Const || instr is I64Const
                || instr is F32Const || instr is F64Const || instr is RefNull || instr is RefFunc),
        ensures
            final(self).same_fields_but_table(old(self)),
            match numeric_type(instr) {
                Some((p, q)) => typed_by(*old(self), *final(self), p, q, r),
                None => true,
            },
            match bulk_type(*ctx, instr) {
                Some(Some((p, q))) => typed_by(*old(self), *final(self), p, q, r),
                Some(None) => r == Err::<(), Error>(Error::Invalid),
                None => true,
            },
            instr matches Instr::RefFunc(x) ==> if x < ctx.funcs@.len() && (old(self).is_const || old(refs)@[x as int]) {
                r is Ok && old(self).with_top(final(self), old(self).top().stack@.push(OpdType::FuncRef), old(self).top().polymorphic)
            } else {
                r == Err::<(), Error>(Error::Invalid)
            },
            final(refs)@.len() == old(refs)@.len(),
            forall|i: int| 0 <= i < old(refs)@.len() && old(refs)@[i] ==> #[trigger] final(refs)@[i],
            !old(self).is_const ==> final(refs)@ == old(refs)@,
            r is Ok ==> {
                &&& final(self).wf()
                &&& final(self).labels@.len() >= old(self).labels@.len()
                &&& final(self).labels@.len() > 0
            },
    {
        let ghost mut base = *self;
        proof {
            let (st, poly) = (base.top().stack@, base.top().polymorphic);
            lemma_apply_push(st, poly, ValType::I32);
            lemma_apply_push(st, poly, ValType::I64);
            lemma_apply_push(st, poly, ValType::F32);
            lemma_apply_push(st, poly, ValType::F64);
            if let Instr::RefNull(t) = instr {
                lemma_apply_push(st, poly, t.spec_valtype());
            }
        }
        match instr {
            Instr::I32Const(_) => self.push(OpdType::I32),
            Instr::I64Const(_) => self.push(OpdType::I64),
            Instr::F32Const(_) => self.push(OpdType::F32),
            Instr::F64Const(_) => self.push(OpdType::F64),
            Instr::ITestOp(n, _) => self.testop(NumType::i(n))?,
            Instr::IRelOp(n, _) => self.relop(NumType::i(n))?,
            Instr::FRelOp(n, _) => self.relop(NumType::f(n))?,
            Instr::IUnOp(n, _) => self.unop(NumType::i(n))?,
            Instr::FUnOp(n, _) => self.unop(NumType::f(n))?,
            Instr::IBinOp(n, _) => self.binop(NumType::i(n))?,
            Instr::FBinOp(n, _) => self.binop(NumType::f(n))?,
            Instr::CvtOp(op) => self.cvtop(op.dst(), op.src())?,
            Instr::IExtend(b) => self.unop(NumType::i(b.nx()))?,
            Instr::RefNull(t) => self.push(OpdType::from_valtype(t.valtype())),
            Instr::RefIsNull => {
                let t = self.pop()?;
                check(t.is_ref())?;
                self.push(OpdType::I32);
            },
            Instr::RefFunc(x) => {
                check((x as usize) < ctx.funcs.len())?;
                if self.is_const {
                    refs.set(x as usize, true);
                } else {
                    check(refs[x as usize])?;
                }
                self.push(OpdType::FuncRef);
            },
            Instr::MemoryInit(_) | Instr::DataDrop(_) | Instr::MemoryCopy | Instr::MemoryFill
            | Instr::TableInit(..) | Instr::ElemDrop(_) | Instr::TableCopy(..) | Instr::TableGrow(_)
            | Instr::TableSize(_) | Instr::TableFill(_) => self.bulk(ctx, instr)?,
            _ => {},
        }
        proof {
            lemma_with_top_wf(&base, self, self.top().stack@, self.top().polymorphic);
        }
        Ok(())
    }

    /// Validates the next instruction.
    pub fn instr(&mut self, ctx: &Context, parser: &mut Parser, refs: &mut Vec<bool>) -> (r: Result<
        (),
        Error,
    >)
        requires
            old(self).labels@.len() > 0,
            old(self).wf(),
            old(parser).wf(),
            old(refs)@.len() == ctx.funcs@.len(),
            old(self).globals_len <= ctx.globals@.len(),
        ensures
            same_input(*old(parser), *final(parser)),
            final(self).same_fields_but_table(old(self)),
            final(refs)@.len() == old(refs)@.len(),
            forall|i: int| 0 <= i < old(refs)@.len() && old(refs)@[i] ==> #[trigger] final(refs)@[i],
            !old(self).is_const ==> final(refs)@ == old(refs)@,
            r is Ok ==> {
                &&& final(self).wf()
                &&& final(parser).pos() > old(parser).pos()
                &&& final(self).labels@.len() + 1 >= old(self).labels@.len()
            },
            match spec_instr(old(parser).rest()) {
                Ok((InstrView::Plain(i), _)) => !old(self).is_const ==> instr_typed(
                    *old(self),
                    *final(self),
                    *ctx,
                    i,
                    r,
                ),
                Ok((InstrView::BrTable(ls, ln), _)) => !old(self).is_const ==> br_table_typed(
                    *old(self),
                    *final(self),
                    ls,
                    ln,
                    r,
                ),
                _ => true,
            },
            old(self).is_const ==> match spec_instr(old(parser).rest()) {
                Ok((InstrView::Plain(i), n)) => const_step(*old(self), *final(self), *ctx, i, r) && final(parser).pos()
                    == old(parser).pos() + n,
                Ok(_) => r == Err::<(), Error>(Error::Invalid),
                Err(e) => r == Err::<(), Error>(e),
            },
    {
        let saved = parser.position();
        let instr = parser.parse_instr()?;
        match instr {
            Instr::End => {
                return self.end_label(parser);
            },
            _ => {},
        }
        if self.is_const {
            match instr {
                Instr::GlobalGet(x) => {
                    check((x as usize) < self.globals_len)?;
                    check(ctx.globals[x as usize].mutable == Mut::Const)?;
                },
                Instr::I32Const(_) => {},
                Instr::I64Const(_) => {},
                Instr::F32Const(_) => {},
                Instr::F64Const(_) => {},
                Instr::RefNull(_) => {},
                Instr::RefFunc(_) => {},
                _ => return Err(invalid()),
            }
        }
        let ghost base = *self;
        let ghost mid_parser = *parser;
        proof {
            if let Some(t) = const_instr_type(*ctx, base.globals_len as int, instr) {
                lemma_apply_push(base.top().stack@, base.top().polymorphic, t);
            }
            assert(opd(ValType::FuncRef) == OpdType::FuncRef);
        }
        let r = match instr {
            Instr::Unreachable | Instr::Nop | Instr::Block(_) | Instr::Loop(_) | Instr::If(_)
            | Instr::Else | Instr::Br(_) | Instr::BrIf(_) | Instr::BrTable(..) | Instr::Return
            | Instr::Call(_) | Instr::CallIndirect(..) => self.control(ctx, parser, refs, instr, saved),
            Instr::Drop | Instr::Select(_) | Instr::LocalGet(_) | Instr::LocalSet(_)
            | Instr::LocalTee(_) | Instr::GlobalGet(_) | Instr::GlobalSet(_) | Instr::TableGet(_)
            | Instr::TableSet(_) | Instr::ILoad(..) | Instr::FLoad(..) | Instr::ILoad_(..)
            | Instr::IStore(..) | Instr::FStore(..) | Instr::IStore_(..) | Instr::MemorySize
            | Instr::MemoryGrow => self.variable(ctx, parser, refs, instr),
            _ => self.other(ctx, parser, refs, instr),
        };
        r
    }
}

impl Expr {
    /// Validates instructions until the end of the expression.
    pub fn check(&mut self, ctx: &Context, parser: &mut Parser, refs: &mut Vec<bool>) -> (r: Result<
        (),
        Error,
    >)
        requires
            old(self).wf(),
            old(parser).wf(),
            old(refs)@.len() == ctx.funcs@.len(),
            old(self).globals_len <= ctx.globals@.len(),
        ensures
            same_input(*old(parser), *final(parser)),
            final(self).same_fields_but_table(old(self)),
            final(refs)@.len() == old(refs)@.len(),
            forall|i: int| 0 <= i < old(refs)@.len() && old(refs)@[i] ==> #[trigger] final(refs)@[i],
            !old(self).is_const ==> final(refs)@ == old(refs)@,
            r is Ok ==> final(self).labels@.len() == 0,
            old(self).is_const && old(self).labels@.len() == 1 && !old(self).top().polymorphic ==> match spec_const_check(
                *ctx,
                old(self).globals_len as int,
                old(parser).rest(),
                old(self).top().stack@,
                old(self).top().type_@.results,
            ) {
                Some(n) => r is Ok && final(parser).pos() == old(parser).pos() + n,
                None => r is Err,
            },
    {
        let ghost c = old(self).is_const && old(self).labels@.len() == 1 && !old(self).top().polymorphic;
        let ghost gl = old(self).globals_len as int;
        let ghost res = old(self).top().type_@.results;
        let ghost s0 = old(parser).rest();
        proof {
            old(parser).lemma_wf();
            assert(s0.skip(0) =~= s0);
        }
        while self.labels.len() > 0
            invariant
                self.wf(),
                parser.wf(),
                old(parser).wf(),
                same_input(*old(parser), *parser),
                self.same_fields_but_table(old(self)),
                refs@.len() == ctx.funcs@.len(),
                refs@.len() == old(refs)@.len(),
                forall|i: int| 0 <= i < old(refs)@.len() && old(refs)@[i] ==> #[trigger] refs@[i],
                !old(self).is_const ==> refs@ == old(refs)@,
                self.globals_len <= ctx.globals@.len(),
                c == (old(self).is_const && old(self).labels@.len() == 1 && !old(self).top().polymorphic),
                gl == old(self).globals_len,
                res == old(self).top().type_@.results,
                s0 == old(parser).rest(),
                parser.pos() >= old(parser).pos(),
                parser.rest() == s0.skip(parser.pos() - old(parser).pos()),
                c ==> const_progress(*ctx, gl, s0, old(self).top().stack@, res, *self, parser.rest(), parser.pos() - old(parser).pos()),
            decreases parser.rest().len(),
        {
            proof {
                parser.lemma_wf();
            }
            let ghost before = *parser;
            let ghost e0 = *self;
            let ghost before_refs = refs@;
            self.instr(ctx, parser, refs)?;
            proof {
                parser.lemma_wf();
                before.lemma_wf();
                assert forall|i: int| 0 <= i < old(refs)@.len() && old(refs)@[i] implies #[trigger] refs@[i] by {
                    assert(before_refs[i]);
                }
                old(parser).lemma_wf();
                assert(parser.rest() =~= before.rest().skip(parser.pos() - before.pos()));
                assert(parser.rest() =~= s0.skip(parser.pos() - old(parser).pos()));
                if c {
                    assert(e0.labels@.len() == 1);
                    if self.labels@.len() == 1 {
                        assert(self.top().type_ == e0.top().type_);
                    }
                }
            }
        }
        Ok(())
    }

    /// Validates a constant expression of type `expected`, reading the first `globals_len` globals.
    pub fn check_const(
        ctx: &Context,
        parser: &mut Parser,
        refs: &mut Vec<bool>,
        globals_len: usize,
        expected: crate::syntax::ResultType,
    ) -> (r: Result<(), Error>)
        requires
            old(parser).wf(),
            old(refs)@.len() == ctx.funcs@.len(),
            globals_len <= ctx.globals@.len(),
        ensures
            same_input(*old(parser), *final(parser)),
            final(refs)@.len() == old(refs)@.len(),
            forall|i: int| 0 <= i < old(refs)@.len() && old(refs)@[i] ==> #[trigger] final(refs)@[i],
            match spec_const_check(*ctx, globals_len as int, old(parser).rest(), Seq::empty(), expected@) {
                Some(n) => r is Ok && final(parser).pos() == old(parser).pos() + n,
                None => r is Err,
            },
    {
        let mut expr = Expr::new(globals_len, true, false, Vec::new(), expected);
        proof {
            assert(expr.top().stack@ =~= Seq::<OpdType>::empty());
        }
        expr.check(ctx, parser, refs)
    }

    /// Validates a function body with the given locals and results, and returns its branch table.
    pub fn check_body(
        ctx: &Context,
        parser: &mut Parser,
        refs: &mut Vec<bool>,
        locals: Vec<ValType>,
        results: crate::syntax::ResultType,
    ) -> (r: Result<Vec<BranchTableEntry>, Error>)
        requires
            old(parser).wf(),
            old(refs)@.len() == ctx.funcs@.len(),
        ensures
            same_input(*old(parser), *final(parser)),
            final(refs)@ == old(refs)@,
    {
        let mut expr = Expr::new(ctx.globals.len(), false, true, locals, results);
        expr.check(ctx, parser, refs)?;
        Ok(expr.branch_table)
    }
}

/// Validates the parts of element segments.
pub struct ValidElem {
    pub context: Context,
    pub refs: Vec<bool>,
    pub num_global_imports: usize,
    pub table_type: OpdType,
    pub elem_type: RefType,
    /// The parts received so far.
    pub parts: Ghost<Seq<crate::parser::ElemPart>>,
}

impl<'m> crate::parser::ParseElem<'m> for ValidElem {
    closed spec fn inv(&self) -> bool {
        &&& self.refs@.len() == self.context.funcs@.len()
        &&& self.num_global_imports <= self.context.globals@.len()
    }

    open spec fn kept(&self) -> Seq<u32> {
        self.context.funcs@
    }

    open spec fn parts(&self) -> Seq<crate::parser::ElemPart> {
        self.parts@
    }

    fn mode(&mut self, mode: crate::parser::ElemMode, parser: &mut Parser<'m>) -> (r: Result<(), Error>)
        ensures
            !(mode is Active) ==> r is Ok && final(self).context == old(self).context && final(self).refs
                == old(self).refs && final(self).table_type == old(self).table_type && *final(parser)
                == *old(parser),
            mode matches crate::parser::ElemMode::Active { table } ==> match spec_const_check(
                old(self).context,
                old(self).num_global_imports as int,
                old(parser).rest(),
                Seq::empty(),
                seq![ValType::I32],
            ) {
                Some(n) => {
                    &&& r is Ok <==> table < old(self).context.tables@.len()
                    &&& final(parser).pos() == old(parser).pos() + n
                    &&& r is Ok ==> final(self).table_type == opd(
                        old(self).context.tables@[table as int].item.spec_valtype(),
                    )
                },
                None => r is Err,
            },
    {
        self.parts = Ghost(self.parts@.push(crate::parser::ElemPart::Mode(mode)));
        match mode {
            crate::parser::ElemMode::Active { table } => {
                let i32 = crate::syntax::ResultType::single(ValType::I32);
                Expr::check_const(
                    &self.context,
                    parser,
                    &mut self.refs,
                    self.num_global_imports,
                    i32,
                )?;
                let t = self.context.table(table)?;
                self.table_type = OpdType::from_valtype(t.item.valtype());
            },
            _ => {},
        }
        Ok(())
    }

    fn type_(&mut self, type_: RefType) -> (r: Result<(), Error>)
        ensures
            r is Ok <==> old(self).table_type.spec_matches(type_.spec_valtype()),
            final(self).elem_type == type_,
            final(self).table_type == old(self).table_type,
            final(self).refs@ == old(self).refs@,
            final(self).num_global_imports == old(self).num_global_imports,
            r is Ok ==> final(self).context.elems@ == old(self).context.elems@.push(type_),
    {
        self.parts = Ghost(self.parts@.push(crate::parser::ElemPart::Type(type_)));
        self.elem_type = type_;
        check(self.table_type.matches(type_.valtype()))?;
        self.context.elems.push(type_);
        Ok(())
    }

    fn init_funcidx(&mut self, x: u32) -> (r: Result<(), Error>)
        ensures
            r is Ok <==> x < old(self).context.funcs@.len(),
            r is Ok ==> final(self).refs@ == old(self).refs@.update(x as int, true),
            r is Err ==> final(self).refs@ == old(self).refs@,
            final(self).context == old(self).context,
            final(self).elem_type == old(self).elem_type,
            final(self).table_type == old(self).table_type,
    {
        self.parts = Ghost(self.parts@.push(crate::parser::ElemPart::FuncIdx(x)));
        check((x as usize) < self.context.funcs.len())?;
        self.refs.set(x as usize, true);
        Ok(())
    }

    fn init_expr(&mut self, parser: &mut Parser<'m>) -> (r: Result<(), Error>)
        ensures
            match spec_const_check(
                old(self).context,
                old(self).num_global_imports as int,
                old(parser).rest(),
                Seq::empty(),
                seq![old(self).elem_type.spec_valtype()],
            ) {
                Some(n) => r is Ok && final(parser).pos() == old(parser).pos() + n,
                None => r is Err,
            },
    {
        self.parts = Ghost(self.parts@.push(crate::parser::ElemPart::Expr));
        let t = crate::syntax::ResultType::single(self.elem_type.valtype());
        Expr::check_const(&self.context, parser, &mut self.refs, self.num_global_imports, t)
    }
}

/// Validates the parts of data segments.
pub struct ValidData {
    pub context: Context,
    pub refs: Vec<bool>,
    pub num_global_imports: usize,
}

impl<'m> crate::parser::ParseData<'m> for ValidData {
    closed spec fn inv(&self) -> bool {
        &&& self.refs@.len() == self.context.funcs@.len()
        &&& self.num_global_imports <= self.context.globals@.len()
    }

    type Kept = ();

    open spec fn kept(&self) -> () {
        ()
    }

    open spec fn keeps_parts() -> bool {
        false
    }

    open spec fn parts(&self) -> Seq<crate::parser::DataPart> {
        Seq::empty()
    }

    fn mode(&mut self, mode: crate::parser::DataMode, parser: &mut Parser<'m>) -> (r: Result<(), Error>)
        ensures
            mode is Passive ==> r is Ok && *final(self) == *old(self) && *final(parser) == *old(parser),
            mode matches crate::parser::DataMode::Active { memory } && memory >= old(self).context.mems@.len()
                ==> r == Err::<(), Error>(Error::Invalid),
            mode matches crate::parser::DataMode::Active { memory } && memory < old(self).context.mems@.len()
                ==> match spec_const_check(
                old(self).context,
                old(self).num_global_imports as int,
                old(parser).rest(),
                Seq::empty(),
                seq![ValType::I32],
            ) {
                Some(n) => r is Ok && final(parser).pos() == old(parser).pos() + n,
                None => r is Err,
            },
    {
        match mode {
            crate::parser::DataMode::Active { memory } => {
                self.context.mem(memory)?;
                let i32 = crate::syntax::ResultType::single(ValType::I32);
                Expr::check_const(
                    &self.context,
                    parser,
                    &mut self.refs,
                    self.num_global_imports,
                    i32,
                )?;
            },
            crate::parser::DataMode::Passive => {},
        }
        Ok(())
    }

    fn init(&mut self, _init: &'m [u8]) -> (r: Result<(), Error>)
        ensures
            r is Ok,
            *final(self) == *old(self),
    {
        Ok(())
    }
}

/// Whether two byte strings are equal.
pub fn bytes_eq(a: &[u8], b: &[u8]) -> (r: bool)
    ensures
        r == (a@ == b@),
{
    if a.len() != b.len() {
        return false;
    }
    let mut i: usize = 0;
    while i < a.len()
        invariant
            a@.len() == b@.len(),
            i <= a@.len(),
            a@.take(i as int) == b@.take(i as int),
        decreases a@.len() - i,
    {
        if a[i] != b[i] {
            assert(a@[i as int] != b@[i as int]);
            return false;
        }
        i = i + 1;
        assert(a@.take(i as int) =~= a@.take(i - 1).push(a@[i - 1]));
        assert(b@.take(i as int) =~= b@.take(i - 1).push(b@[i - 1]));
    }
    assert(a@ =~= a@.take(i as int));
    assert(b@ =~= b@.take(i as int));
    true
}

/// The magic number and version of WebAssembly modules.
pub open spec fn header() -> Seq<u8> {
    seq![0x00u8, 0x61u8, 0x73u8, 0x6du8, 0x01u8, 0x00u8, 0x00u8, 0x00u8]
}

/// Whether the side table entries describe function bodies within `len` bytes.
pub open spec fn entries_within(es: Seq<MetadataEntry>, len: int) -> bool {
    forall|i: int|
        0 <= i < es.len() ==> (#[trigger] es[i]).parser_state.spec_start()
            <= es[i].parser_state.spec_end() <= len
}

/// Checks the magic number and version of a module.
pub fn check_header(parser: &mut Parser) -> (r: Result<(), Error>)
    requires
        old(parser).wf(),
    ensures
        same_input(*old(parser), *final(parser)),
        r is Ok <==> old(parser).rest().len() >= 8 && old(parser).rest().take(8) == header(),
        r is Ok ==> final(parser).pos() == old(parser).pos() + 8,
        r is Err ==> r == Err::<(), Error>(Error::Invalid),
{
    let b = parser.parse_bytes(8)?;
    let ok = b[0] == 0x00 && b[1] == 0x61 && b[2] == 0x73 && b[3] == 0x6d && b[4] == 0x01 && b[5]
        == 0x00 && b[6] == 0x00 && b[7] == 0x00;
    proof {
        if ok {
            assert(b@ =~= header());
        } else {
            assert(b@ != header()) by {
                if b@ == header() {
                    assert(b@[0] == header()[0]);
                }
            }
        }
    }
    check(ok)
}

/// The number of function bodies that the code section of the sections `s` declares, if any.
pub open spec fn code_count(s: Seq<u8>) -> int {
    match spec_find_section(s, SectionId::Code) {
        Ok(Some(c)) => match spec_u32(c) {
            Ok((n, _)) => n as int,
            Err(_) => 0,
        },
        _ => 0,
    }
}

/// The number of memories that the imports `w` declare.
pub open spec fn memory_imports(w: Seq<(Seq<u8>, Seq<u8>, ImportDesc)>) -> int
    decreases w.len(),
{
    if w.len() == 0 {
        0
    } else {
        memory_imports(w.drop_last()) + if w.last().2 is Mem {
            1int
        } else {
            0int
        }
    }
}

/// The number of memories that the import section of the sections `s` declares.
pub open spec fn imported_memories(s: Seq<u8>) -> int {
    match crate::module::spec_imports(s) {
        Some(w) => memory_imports(w),
        None => 0,
    }
}

/// The number of memories that the sections `s` import and define.
pub open spec fn declared_memories(s: Seq<u8>) -> int {
    imported_memories(s) + match spec_find_section(s, SectionId::Memory) {
        Ok(Some(c)) => match spec_u32(c) {
            Ok((n, _)) => n as int,
            Err(_) => 0,
        },
        _ => 0,
    }
}

/// Reads the import section `p`, a vector of imports, and adds what each declares.
#[verifier::rlimit(50)]
#[verifier::spinoff_prover]
fn add_imports(p: &mut Parser, ctx: &mut Context) -> (r: Result<(), Error>)
    requires
        old(p).wf(),
        old(ctx).wf(),
    ensures
        final(ctx).wf(),
        final(ctx).types@ == old(ctx).types@,
        final(ctx).elems@ == old(ctx).elems@,
        final(ctx).datas == old(ctx).datas,
        r is Ok ==> {
            &&& spec_u32(old(p).rest()) matches Ok((n, k))
            &&& crate::module::spec_import_list(old(p).rest().skip(k as int), n as nat) matches Some(w)
            &&& final(ctx).mems@.len() == old(ctx).mems@.len() + memory_imports(w)
        },
{
    let ghost pc = *p;
    let ghost mems0 = ctx.mems@.len();
    let n = p.parse_vec()?;
    let ghost pb = *p;
    let ghost mut ws: Seq<(Seq<u8>, Seq<u8>, ImportDesc)> = Seq::empty();
    proof {
        pc.lemma_wf();
        pb.lemma_wf();
        assert(pb.rest() =~= pc.rest().skip(pb.pos() - pc.pos()));
        let b = pb.rest();
        match crate::module::spec_import_list(b, n as nat) {
            Some(w) => {
                assert(ws + w =~= w);
            },
            None => {},
        }
    }
    let mut i: usize = 0;
    while i < n
        invariant
            p.wf(),
            i <= n,
            ctx.wf(),
            ctx.types@ == old(ctx).types@,
            ctx.elems@ == old(ctx).elems@,
            ctx.datas == old(ctx).datas,
            ctx.mems@.len() == mems0 + memory_imports(ws),
            crate::module::spec_import_list(pb.rest(), n as nat) == match crate::module::spec_import_list(
                p.rest(),
                (n - i) as nat,
            ) {
                Some(w) => Some(ws + w),
                None => None,
            },
        decreases n - i,
    {
        let ghost q = *p;
        let ghost ws0 = ws;
        proof {
            q.lemma_wf();
        }
        ctx.add_import(p)?;
        proof {
            p.lemma_wf();
            let (m, x, d, len) = spec_import(q.rest())->Some_0;
            let imp = (m, x, d);
            assert(p.rest() =~= q.rest().skip(len as int));
            ws = ws.push(imp);
            assert(ws.drop_last() =~= ws0);
            match crate::module::spec_import_list(p.rest(), (n - i - 1) as nat) {
                Some(w) => {
                    assert(ws0 + (seq![imp] + w) =~= ws + w);
                },
                None => {},
            }
        }
        i = i + 1;
    }
    check(p.is_empty())?;
    proof {
        assert(ws + Seq::empty() =~= ws);
    }
    Ok(())
}

/// Reads the function section `p`, a vector of type indices, and adds a function of each type.
fn add_functions(p: &mut Parser, ctx: &mut Context) -> (r: Result<(), Error>)
    requires
        old(p).wf(),
        old(ctx).wf(),
    ensures
        final(ctx).wf(),
        final(ctx).same_but_funcs(old(ctx)),
        r is Ok ==> {
            &&& spec_u32(old(p).rest()) matches Ok((n, k))
            &&& spec_u32s(old(p).rest().skip(k as int), n as nat) matches Ok((xs, _))
            &&& final(ctx).funcs@ == old(ctx).funcs@ + xs
        },
{
    let ghost pc = *p;
    let ghost funcs_imported = ctx.funcs@;
    let n = p.parse_vec()?;
    let ghost pb = *p;
    proof {
        pc.lemma_wf();
        pb.lemma_wf();
        assert(pb.rest() =~= pc.rest().skip(pb.pos() - pc.pos()));
        assert(pb.rest().skip(0) =~= pb.rest());
        assert(ctx.funcs@.skip(funcs_imported.len() as int) =~= Seq::<u32>::empty());
    }
    let mut i: usize = 0;
    while i < n
        invariant
            p.wf(),
            i <= n,
            ctx.wf(),
            ctx.same_but_funcs(old(ctx)),
            pb.wf(),
            same_input(pb, *p),
            p.rest() == pb.rest().skip(p.pos() - pb.pos()),
            ctx.funcs@.len() == funcs_imported.len() + i,
            ctx.funcs@.take(funcs_imported.len() as int) == funcs_imported,
            spec_u32s(pb.rest(), i as nat) == Ok::<(Seq<u32>, nat), Error>(
                (ctx.funcs@.skip(funcs_imported.len() as int), (p.pos() - pb.pos()) as nat),
            ),
        decreases n - i,
    {
        let ghost q = *p;
        let ghost fs = ctx.funcs@;
        let x = p.parse_typeidx()?;
        ctx.add_functype(x)?;
        proof {
            q.lemma_wf();
            p.lemma_wf();
            pb.lemma_wf();
            assert(ctx.funcs@.skip(funcs_imported.len() as int) =~= fs.skip(
                funcs_imported.len() as int,
            ).push(x));
            assert(ctx.funcs@.take(funcs_imported.len() as int) =~= funcs_imported);
            assert(p.rest() =~= pb.rest().skip(p.pos() - pb.pos()));
        }
        i = i + 1;
    }
    check(p.is_empty())?;
    proof {
        assert(ctx.funcs@ =~= funcs_imported + ctx.funcs@.skip(funcs_imported.len() as int));
    }
    Ok(())
}

/// The type indices that the function section of the sections `s` gives to the functions that
/// the module defines, if it has one that can be read.
pub open spec fn defined_func_types(s: Seq<u8>) -> Seq<u32> {
    match spec_find_section(s, SectionId::Function) {
        Ok(Some(c)) => match spec_u32(c) {
            Ok((n, k)) => match spec_u32s(c.skip(k as int), n as nat) {
                Ok((xs, _)) => xs,
                Err(_) => Seq::empty(),
            },
            Err(_) => Seq::empty(),
        },
        _ => Seq::empty(),
    }
}

/// Validates the sections of a module up to the start section: returns the context they declare,
/// which functions may be referenced, the number of imported globals and of imported functions.
#[verifier::rlimit(100)]
#[verifier::spinoff_prover]
#[verifier::loop_isolation(false)]
fn check_declarations(parser: &mut Parser) -> (r: Result<
    (Context, Vec<bool>, usize, usize, Ghost<int>),
    Error,
>)
    requires
        old(parser).wf(),
    ensures
        same_input(*old(parser), *final(parser)),
        r matches Ok((ctx, refs, globals_len, imported_funcs, last)) ==> {
            &&& ctx.wf()
            &&& refs@.len() == ctx.funcs@.len()
            &&& globals_len <= ctx.globals@.len()
            &&& last@ <= SectionId::Start.spec_order()
            &&& imported_funcs <= ctx.funcs@.len()
            &&& sections_in_order(old(parser).rest(), 0) ==> declared_memories(old(parser).rest())
                <= 1
            &&& sections_in_order(old(parser).rest(), 0) ==> ctx.funcs@.skip(imported_funcs as int)
                == defined_func_types(old(parser).rest())
            &&& tail_in_order(old(parser).rest(), final(parser).rest(), last@)
            &&& finds_from(old(parser).rest(), final(parser).rest(), last@)
        },
        customs_only(old(parser).rest()) ==> (r matches Ok((ctx, refs, globals_len, imported_funcs, _))
            && ctx.funcs@.len() == imported_funcs && ctx.datas is None && final(parser).rest().len()
            == 0),
{
    let ghost mut last: int = 0;
    let ghost s0 = parser.rest();
    proof {
        lemma_tail_in_order_start(s0);
        lemma_finds_from_start(s0);
    }
    let mut ctx = Context::new();
    let ghost g = *parser;
    let sec = check_section(parser, SectionId::Type);
    proof {
        if sec is Ok {
            lemma_find_step(s0, g, *parser, SectionId::Type, sec, last);
            last = lemma_section_step(s0, g, *parser, SectionId::Type, sec, last);
        }
        if customs_only(s0) {
            lemma_customs_step(g, *parser, SectionId::Type, sec);
        }
    }
    if let Some(mut p) = sec? {
        let n = p.parse_vec()?;
        let mut i: usize = 0;
        while i < n
            invariant
                p.wf(),
                i <= n,
                ctx.wf(),
                ctx.mems@.len() == 0,
            decreases n - i,
        {
            let t = p.parse_functype()?;
            ctx.types.push(t);
            i = i + 1;
        }
        check(p.is_empty())?;
    }
    let ghost g = *parser;
    let sec = check_section(parser, SectionId::Import);
    proof {
        if sec is Ok {
            lemma_find_step(s0, g, *parser, SectionId::Import, sec, last);
            last = lemma_section_step(s0, g, *parser, SectionId::Import, sec, last);
        }
        if customs_only(s0) {
            lemma_customs_step(g, *parser, SectionId::Import, sec);
        }
    }
    let ghost import_section = match sec {
        Ok(Some(c)) => Some(c.rest()),
        _ => None,
    };
    if let Some(mut p) = sec? {
        add_imports(&mut p, &mut ctx)?;
    }
    proof {
        if sections_in_order(s0, 0) {
            assert(ctx.mems@.len() == imported_memories(s0));
        }
    }
    let imported_funcs = ctx.funcs.len();
    let ghost g = *parser;
    let sec = check_section(parser, SectionId::Function);
    proof {
        if sec is Ok {
            lemma_find_step(s0, g, *parser, SectionId::Function, sec, last);
            last = lemma_section_step(s0, g, *parser, SectionId::Function, sec, last);
        }
        if customs_only(s0) {
            lemma_customs_step(g, *parser, SectionId::Function, sec);
        }
    }
    let ghost funcs_imported = ctx.funcs@;
    let ghost func_section = match sec {
        Ok(Some(c)) => Some(c.rest()),
        _ => None,
    };
    if let Some(mut p) = sec? {
        add_functions(&mut p, &mut ctx)?;
        proof {
            let c = func_section->Some_0;
            let (n, k) = spec_u32(c)->Ok_0;
            let xs = spec_u32s(c.skip(k as int), n as nat)->Ok_0.0;
            assert(ctx.funcs@.skip(imported_funcs as int) =~= xs);
        }
    }
    proof {
        if func_section is None {
            assert(ctx.funcs@.skip(imported_funcs as int) =~= Seq::<u32>::empty());
        }
        assert(sections_in_order(s0, 0) ==> ctx.funcs@.skip(imported_funcs as int)
            == defined_func_types(s0));
    }
    let ghost funcs_declared = ctx.funcs@;
    let ghost mems_imported = ctx.mems@;
    let mut refs: Vec<bool> = vec![false; ctx.funcs.len()];
    let ghost g = *parser;
    let sec = check_section(parser, SectionId::Table);
    proof {
        if sec is Ok {
            lemma_find_step(s0, g, *parser, SectionId::Table, sec, last);
            last = lemma_section_step(s0, g, *parser, SectionId::Table, sec, last);
        }
        if customs_only(s0) {
            lemma_customs_step(g, *parser, SectionId::Table, sec);
        }
    }
    if let Some(mut p) = sec? {
        let n = p.parse_vec()?;
        let mut i: usize = 0;
        while i < n
            invariant
                p.wf(),
                i <= n,
                refs@.len() == ctx.funcs@.len(),
                ctx.wf(),
                ctx.funcs@ == funcs_declared,
                ctx.mems@ == mems_imported,
            decreases n - i,
        {
            let t = p.parse_tabletype()?;
            ctx.add_tabletype(t)?;
            i = i + 1;
        }
        check(p.is_empty())?;
    }
    let ghost g = *parser;
    let sec = check_section(parser, SectionId::Memory);
    proof {
        if sec is Ok {
            lemma_find_step(s0, g, *parser, SectionId::Memory, sec, last);
            last = lemma_section_step(s0, g, *parser, SectionId::Memory, sec, last);
        }
        if customs_only(s0) {
            lemma_customs_step(g, *parser, SectionId::Memory, sec);
        }
    }
    let ghost mem_section = match sec {
        Ok(Some(c)) => Some(c.rest()),
        _ => None,
    };
    let ghost mems_before = ctx.mems@.len();
    if let Some(mut p) = sec? {
        let n = p.parse_vec()?;
        let mut i: usize = 0;
        while i < n
            invariant
                p.wf(),
                i <= n,
                refs@.len() == ctx.funcs@.len(),
                ctx.wf(),
                ctx.funcs@ == funcs_declared,
                ctx.mems@.len() == mems_before + i,
            decreases n - i,
        {
            let m = p.parse_memtype()?;
            ctx.add_memtype(m)?;
            i = i + 1;
        }
        check(p.is_empty())?;
    }
    proof {
        if sections_in_order(s0, 0) {
            assert(ctx.mems@.len() == declared_memories(s0));
        }
    }
    check(ctx.mems.len() <= 1)?;
    let mut globals_len = ctx.globals.len();
    let ghost g = *parser;
    let sec = check_section(parser, SectionId::Global);
    proof {
        if sec is Ok {
            lemma_find_step(s0, g, *parser, SectionId::Global, sec, last);
            last = lemma_section_step(s0, g, *parser, SectionId::Global, sec, last);
        }
        if customs_only(s0) {
            lemma_customs_step(g, *parser, SectionId::Global, sec);
        }
    }
    if let Some(mut p) = sec? {
        let n = p.parse_vec()?;
        let mut i: usize = 0;
        while i < n
            invariant
                p.wf(),
                i <= n,
                refs@.len() == ctx.funcs@.len(),
                ctx.wf(),
                ctx.funcs@ == funcs_declared,
                globals_len <= ctx.globals@.len(),
            decreases n - i,
        {
            let g = p.parse_globaltype()?;
            ctx.add_globaltype(g);
            let t = crate::syntax::ResultType::single(g.value);
            Expr::check_const(&ctx, &mut p, &mut refs, globals_len, t)?;
            i = i + 1;
        }
        check(p.is_empty())?;
    }
    let ghost g = *parser;
    let sec = check_section(parser, SectionId::Export);
    proof {
        if sec is Ok {
            lemma_find_step(s0, g, *parser, SectionId::Export, sec, last);
            last = lemma_section_step(s0, g, *parser, SectionId::Export, sec, last);
        }
        if customs_only(s0) {
            lemma_customs_step(g, *parser, SectionId::Export, sec);
        }
    }
    if let Some(mut p) = sec? {
        let mut names: Vec<&[u8]> = Vec::new();
        let n = p.parse_vec()?;
        let mut i: usize = 0;
        while i < n
            invariant
                p.wf(),
                i <= n,
                refs@.len() == ctx.funcs@.len(),
                ctx.wf(),
                ctx.funcs@ == funcs_declared,
                globals_len <= ctx.globals@.len(),
            decreases n - i,
        {
            let name = p.parse_name()?.as_bytes();
            let mut j: usize = 0;
            while j < names.len()
                invariant
                    j <= names@.len(),
                decreases names@.len() - j,
            {
                check(!bytes_eq(names[j], name))?;
                j = j + 1;
            }
            names.push(name);
            let desc = p.parse_exportdesc()?;
            ctx.check_exportdesc(&desc)?;
            match desc {
                ExportDesc::Func(x) => refs.set(x as usize, true),
                _ => {},
            }
            i = i + 1;
        }
        check(p.is_empty())?;
    }
    let ghost g = *parser;
    let sec = check_section(parser, SectionId::Start);
    proof {
        if sec is Ok {
            lemma_find_step(s0, g, *parser, SectionId::Start, sec, last);
            last = lemma_section_step(s0, g, *parser, SectionId::Start, sec, last);
        }
        if customs_only(s0) {
            lemma_customs_step(g, *parser, SectionId::Start, sec);
        }
    }
    if let Some(mut p) = sec? {
        let x = p.parse_funcidx()?;
        let t = ctx.functype(x)?;
        check(t.params.is_empty() && t.results.is_empty())?;
        check(p.is_empty())?;
    }
    Ok((ctx, refs, globals_len, imported_funcs, Ghost(last)))
}

/// Validates the sections of a module and computes the side table of its function bodies, whose
/// positions are relative to the start of the sections.
#[verifier::rlimit(100)]
#[verifier::spinoff_prover]
#[verifier::loop_isolation(false)]
pub fn check_sections(parser: &mut Parser) -> (r: Result<Vec<MetadataEntry>, Error>)
    requires
        old(parser).wf(),
    ensures
        same_input(*old(parser), *final(parser)),
        r matches Ok(es) ==> final(parser).rest().len() == 0 && entries_within(
            es@,
            old(parser).limit() - old(parser).pos(),
        ),
        r is Ok ==> sections_in_order(old(parser).rest(), 0),
        r is Ok ==> declared_memories(old(parser).rest()) <= 1,
        r matches Ok(es) ==> es@.len() == code_count(old(parser).rest()),
        r matches Ok(es) ==> es@.len() == defined_func_types(old(parser).rest()).len() && forall|
            i: int,
        |
            0 <= i < es@.len() ==> (#[trigger] es@[i]).type_idx == defined_func_types(
                old(parser).rest(),
            )[i],
        customs_only(old(parser).rest()) ==> (r matches Ok(es) && es@.len() == 0),
{
    let ghost old_parser = *parser;
    let ghost mut last: int = 0;
    let ghost s0 = parser.rest();
    proof {
        lemma_tail_in_order_start(s0);
    }
    let module_start = parser.position();
    let mut side_table: Vec<MetadataEntry> = Vec::new();
    let (mut ctx, mut refs, mut globals_len, imported_funcs, found) = check_declarations(parser)?;
    proof {
        last = found@;
        if customs_only(s0) {
            lemma_customs_empty(parser.rest());
        }
    }
    let ghost g = *parser;
    let sec = check_section(parser, SectionId::Element);
    proof {
        if sec is Ok {
            lemma_find_step(s0, g, *parser, SectionId::Element, sec, last);
            last = lemma_section_step(s0, g, *parser, SectionId::Element, sec, last);
        }
        if customs_only(s0) {
            lemma_customs_step(g, *parser, SectionId::Element, sec);
        }
    }
    if let Some(mut p) = sec? {
        let n = p.parse_vec()?;
        let ghost funcs0 = ctx.funcs@;
        let mut user = ValidElem {
            context: ctx,
            refs,
            num_global_imports: globals_len,
            table_type: OpdType::Bottom,
            elem_type: RefType::FuncRef,
            parts: Ghost(Seq::empty()),
        };
        let mut i: usize = 0;
        while i < n
            invariant
                p.wf(),
                i <= n,
                crate::parser::ParseElem::inv(&user),
                user.context.funcs@ == funcs0,
            decreases n - i,
        {
            user.table_type = OpdType::Bottom;
            user.elem_type = RefType::FuncRef;
            p.parse_elem(&mut user)?;
            i = i + 1;
        }
        check(p.is_empty())?;
        // The segments keep the number of imported globals they were given.
        let ValidElem { context, refs: elem_refs, num_global_imports, .. } = user;
        ctx = context;
        refs = elem_refs;
        globals_len = num_global_imports;
    }
    let ghost g = *parser;
    let sec = check_section(parser, SectionId::DataCount);
    proof {
        if sec is Ok {
            lemma_find_step(s0, g, *parser, SectionId::DataCount, sec, last);
            last = lemma_section_step(s0, g, *parser, SectionId::DataCount, sec, last);
        }
        if customs_only(s0) {
            lemma_customs_step(g, *parser, SectionId::DataCount, sec);
        }
    }
    if let Some(mut p) = sec? {
        let n = p.parse_u32()?;
        ctx.datas = Some(n as usize);
        check(p.is_empty())?;
    }
    proof {
        assert(same_input(old_parser, *parser));
    }
    let ghost g = *parser;
    let sec = check_section(parser, SectionId::Code);
    let ghost code = match sec {
        Ok(Some(c)) => Some(c.rest()),
        _ => None,
    };
    let ghost mut bodies: int = 0;
    proof {
        if sec is Ok {
            lemma_find_step(s0, g, *parser, SectionId::Code, sec, last);
            last = lemma_section_step(s0, g, *parser, SectionId::Code, sec, last);
        }
        if customs_only(s0) {
            lemma_customs_step(g, *parser, SectionId::Code, sec);
        }
    }
    if let Some(mut p) = sec? {
        proof {
            parser.lemma_wf();
        }
        let n = p.parse_vec()?;
        proof {
            bodies = n as int;
        }
        check(n <= ctx.funcs.len() && ctx.funcs.len() - n == imported_funcs)?;
        let mut x = imported_funcs;
        while x < ctx.funcs.len()
            invariant
                imported_funcs <= x <= ctx.funcs@.len(),
                side_table@.len() == x - imported_funcs,
                forall|j: int|
                    0 <= j < side_table@.len() ==> (#[trigger] side_table@[j]).type_idx
                        == ctx.funcs@[imported_funcs + j],
                p.wf(),
                p.source() == old_parser.source(),
                module_start == old_parser.pos(),
                module_start <= p.pos(),
                p.limit() <= old_parser.limit(),
                refs@.len() == ctx.funcs@.len(),
                globals_len <= ctx.globals@.len(),
                entries_within(side_table@, old_parser.limit() - old_parser.pos()),
            decreases ctx.funcs@.len() - x,
        {
            let size = p.parse_u32()? as usize;
            let ghost p0 = p;
            let mut body = p.split_at(size)?;
            proof {
                body.lemma_wf();
            }
            let parser_start = body.position() - module_start;
            let t = ctx.type_(ctx.funcs[x])?;
            let FuncType { params, results } = t;
            let mut locals = params.0;
            body.parse_locals(&mut locals)?;
            let state = crate::cursor::CursorState::from_range(parser_start..parser_start + size);
            let branch_table = Expr::check_body(&ctx, &mut body, &mut refs, locals, results)?;
            check(body.is_empty())?;
            let ghost before = side_table@;
            side_table.push(
                MetadataEntry { type_idx: ctx.funcs[x] as usize, parser_state: state, branch_table },
            );
            proof {
                p0.lemma_wf();
                assert forall|j: int| 0 <= j < side_table@.len() implies (
                #[trigger] side_table@[j]).parser_state.spec_start()
                    <= side_table@[j].parser_state.spec_end() <= old_parser.limit()
                    - old_parser.pos() by {
                    if j < before.len() {
                        assert(side_table@[j] == before[j]);
                    }
                }
                assert forall|j: int| 0 <= j < side_table@.len() implies (
                #[trigger] side_table@[j]).type_idx == ctx.funcs@[imported_funcs + j] by {
                    if j < before.len() {
                        assert(side_table@[j] == before[j]);
                    }
                }
            }
            x = x + 1;
        }
        check(p.is_empty())?;
    } else {
        check(ctx.funcs.len() == imported_funcs)?;
    }
    let ghost g = *parser;
    let sec = check_section(parser, SectionId::Data);
    proof {
        if sec is Ok {
            lemma_find_step(s0, g, *parser, SectionId::Data, sec, last);
            last = lemma_section_step(s0, g, *parser, SectionId::Data, sec, last);
        }
        if customs_only(s0) {
            lemma_customs_step(g, *parser, SectionId::Data, sec);
        }
    }
    if let Some(mut p) = sec? {
        let n = p.parse_vec()?;
        check(
            match ctx.datas {
                None => true,
                Some(m) => m == n,
            },
        )?;
        let mut user = ValidData { context: ctx, refs, num_global_imports: globals_len };
        let mut i: usize = 0;
        while i < n
            invariant
                p.wf(),
                i <= n,
                crate::parser::ParseData::inv(&user),
            decreases n - i,
        {
            p.parse_data(&mut user)?;
            i = i + 1;
        }
        check(p.is_empty())?;
    } else {
        check(
            match ctx.datas {
                None => true,
                Some(m) => m == 0,
            },
        )?;
    }
    let ghost g = *parser;
    let sec = check_section(parser, SectionId::Custom);
    proof {
        if sec is Ok {
            last = lemma_section_step(s0, g, *parser, SectionId::Custom, sec, last);
        }
        if customs_only(s0) {
            lemma_customs_step(g, *parser, SectionId::Custom, sec);
        }
    }
    sec?;
    check(parser.is_empty())?;
    proof {
        lemma_tail_in_order_end(s0, parser.rest(), last);
        assert(spec_find_section(s0, SectionId::Code) == Ok::<Option<Seq<u8>>, Error>(code));
        assert(side_table@.len() == ctx.funcs@.len() - imported_funcs);
    }
    Ok(side_table)
}

/// Checks whether a module in binary format is valid, and returns its side table.
pub fn check_module(parser: &mut Parser) -> (r: Result<Vec<MetadataEntry>, Error>)
    requires
        old(parser).wf(),
    ensures
        same_input(*old(parser), *final(parser)),
        r matches Ok(es) ==> {
            &&& old(parser).rest().len() >= 8
            &&& old(parser).rest().take(8) == header()
            &&& final(parser).rest().len() == 0
            &&& entries_within(es@, old(parser).limit() - old(parser).pos() - 8)
            &&& sections_in_order(old(parser).rest().skip(8), 0)
            &&& declared_memories(old(parser).rest().skip(8)) <= 1
            &&& es@.len() == code_count(old(parser).rest().skip(8))
            &&& es@.len() == defined_func_types(old(parser).rest().skip(8)).len()
            &&& forall|i: int|
                0 <= i < es@.len() ==> (#[trigger] es@[i]).type_idx == defined_func_types(
                    old(parser).rest().skip(8),
                )[i]
        },
        !(old(parser).rest().len() >= 8 && old(parser).rest().take(8) == header()) ==> r
            == Err::<Vec<MetadataEntry>, Error>(Error::Invalid),
        old(parser).rest().len() >= 8 && old(parser).rest().take(8) == header() && customs_only(
            old(parser).rest().skip(8),
        ) ==> (r matches Ok(es) && es@.len() == 0),
{
    let ghost p0 = *parser;
    check_header(parser)?;
    proof {
        p0.lemma_wf();
        parser.lemma_wf();
        assert(parser.rest() =~= p0.rest().skip(8));
    }
    check_sections(parser)
}

/// Checks whether a WebAssembly module in binary format is valid, and returns the side table.
pub fn prepare(binary: &[u8]) -> (r: Result<Vec<MetadataEntry>, Error>)
    ensures
        r matches Ok(es) ==> {
            &&& binary@.len() >= 8
            &&& binary@.take(8) == header()
            &&& entries_within(es@, binary@.len() - 8)
            &&& sections_in_order(binary@.skip(8), 0)
            &&& declared_memories(binary@.skip(8)) <= 1
            &&& es@.len() == code_count(binary@.skip(8))
            &&& es@.len() == defined_func_types(binary@.skip(8)).len()
            &&& forall|i: int|
                0 <= i < es@.len() ==> (#[trigger] es@[i]).type_idx == defined_func_types(
                    binary@.skip(8),
                )[i]
        },
        !(binary@.len() >= 8 && binary@.take(8) == header()) ==> r == Err::<
            Vec<MetadataEntry>,
            Error,
        >(Error::Invalid),
        binary@.len() >= 8 && binary@.take(8) == header() && customs_only(binary@.skip(8)) ==> (r
            matches Ok(es) && es@.len() == 0),
{
    let mut parser = Parser::new(binary);
    check_module(&mut parser)
}

/// The module `binary` with the side table inserted as a custom section after the header.
pub open spec fn spec_merge(binary: Seq<u8>, side_table: Seq<MetadataEntry>) -> Seq<u8> {
    binary.take(8) + spec_section(0, spec_serialize(side_table), SECTION_NAME.spec_bytes())
        + binary.skip(8)
}

/// Inserts the side table in a module, as a custom section right after the header.
pub fn merge(binary: &[u8], side_table: Vec<MetadataEntry>) -> (r: Result<Vec<u8>, Error>)
    requires
        binary@.len() >= 8,
    ensures
        match r {
            Ok(w) => serializable(side_table@) && w@ == spec_merge(binary@, side_table@),
            Err(e) => !serializable(side_table@) && e == Error::Unsupported(Unsupported::SideTable),
        },
{
    let content = serialize(side_table.as_slice())?;
    let mut wasm: Vec<u8> = Vec::new();
    append(&mut wasm, vstd::slice::slice_subrange(binary, 0, 8));
    proof {
        lemma_serialize_len(side_table@);
        lemma_section_name();
    }
    section(&mut wasm, 0, content.as_slice(), SECTION_NAME);
    append(&mut wasm, vstd::slice::slice_subrange(binary, 8, binary.len()));
    proof {
        assert(wasm@ =~= spec_merge(binary@, side_table@));
    }
    Ok(wasm)
}

/// The name of the side table section is short and ASCII.
pub proof fn lemma_section_name()
    ensures
        SECTION_NAME.spec_bytes().len() == 18,
        valid_utf8(SECTION_NAME.spec_bytes()),
{
    reveal_strlit("wasefire-sidetable");
    assert(vstd::string::is_ascii(SECTION_NAME));
    vstd::string::is_ascii_spec_bytes(SECTION_NAME);
    vstd::utf8::encode_utf8_valid_utf8(SECTION_NAME@);
}

/// The content of the side table section that follows the header of a module, and the position
/// after the section.
pub open spec fn side_table_section(b: Seq<u8>) -> Option<(Seq<u8>, int)> {
    let s = b.skip(9);
    if b.len() < 9 || b[8] != 0 {
        None
    } else {
        match spec_u32(s) {
            Err(_) => None,
            Ok((len, n)) => if n + len > s.len() {
                None
            } else {
                let sec = s.subrange(n as int, n + len);
                match spec_name(sec) {
                    Err(_) => None,
                    Ok((name, m)) => if name != SECTION_NAME.spec_bytes() {
                        None
                    } else {
                        Some((sec.skip(m as int), 9 + n + len))
                    },
                }
            },
        }
    }
}

/// Whether a module is made of a header, the side table section of no function bodies, and named
/// custom sections only.
pub open spec fn customs_with_side_table(b: Seq<u8>) -> bool {
    &&& b.len() >= 8
    &&& b.take(8) == header()
    &&& side_table_section(b) matches Some((content, end))
    &&& content == spec_serialize(Seq::empty())
    &&& customs_only(b.skip(end))
}

/// Checks whether a WebAssembly module whose side table follows the header is valid, and whether
/// its side table is the one of the module. Returns the side table and the position of the
/// sections after it.
#[verifier::rlimit(30)]
pub fn verified_side_table(binary: &[u8]) -> (r: Result<(Vec<MetadataEntry>, usize), Error>)
    ensures
        r matches Ok((es, start)) ==> {
            &&& binary@.len() <= usize::MAX
            &&& binary@.len() >= 8
            &&& binary@.take(8) == header()
            &&& side_table_section(binary@) == Some((spec_serialize(es@), start as int))
            &&& start <= binary@.len()
            &&& entries_within(es@, binary@.len() - start)
        },
        customs_with_side_table(binary@) ==> r is Ok,
{
    let ghost b = binary@;
    let ghost premise = customs_with_side_table(b);
    let mut parser = Parser::new(binary);
    proof {
        parser.lemma_wf();
        if premise {
            assert(parser.rest().take(8) == b.take(8));
        }
    }
    check_header(&mut parser)?;
    let ghost p1 = parser;
    proof {
        p1.lemma_wf();
        assert(p1.rest() =~= b.skip(8));
        if premise {
            assert(b[8] == p1.rest()[0]);
        }
    }
    let id = parser.parse_section_id()?;
    check(id == SectionId::Custom)?;
    let ghost p2 = parser;
    proof {
        p2.lemma_wf();
        assert(p2.rest() =~= b.skip(9));
    }
    let mut section = parser.split_section()?;
    let ghost sec0 = section;
    proof {
        sec0.lemma_wf();
        let len = spec_u32(b.skip(9))->Ok_0.0;
        let k = spec_u32(b.skip(9))->Ok_0.1;
        assert(sec0.rest() =~= b.skip(9).subrange(k as int, k + len));
    }
    let name = section.parse_name()?;
    check(bytes_eq(name.as_bytes(), SECTION_NAME.as_bytes()))?;
    let n = section.remaining();
    let content = section.parse_bytes(n)?;
    let ghost p3 = parser;
    let p3_start = parser.position();
    proof {
        p3.lemma_wf();
        let len = spec_u32(b.skip(9))->Ok_0.0;
        let k = spec_u32(b.skip(9))->Ok_0.1;
        let sec = b.skip(9).subrange(k as int, k + len);
        let m = spec_name(sec)->Ok_0.1;
        assert(content@ =~= sec.skip(m as int));
        assert(p3.pos() == 9 + k + len);
        assert(p3.rest() =~= b.skip(9 + k + len));
    }
    let side_table = check_sections(&mut parser)?;
    proof {
        if premise {
            assert(side_table@ =~= Seq::<MetadataEntry>::empty());
            assert(serializable(side_table@));
        }
    }
    let expected = serialize(side_table.as_slice())?;
    let ok = bytes_eq(expected.as_slice(), content);
    proof {
        if ok {
            let len = spec_u32(b.skip(9))->Ok_0.0;
            let k = spec_u32(b.skip(9))->Ok_0.1;
            assert(entries_within(side_table@, b.len() - (9 + k + len)));
        }
    }
    check(ok)?;
    Ok((side_table, p3_start))
}

/// Checks whether a WebAssembly module whose side table follows the header is valid, and whether
/// its side table is the one of the module.
pub fn verify(binary: &[u8]) -> (r: Result<(), Error>)
    ensures
        r is Ok ==> {
            &&& binary@.len() >= 8
            &&& binary@.take(8) == header()
            &&& side_table_section(binary@) matches Some((content, end)) && exists|es: Seq<
                MetadataEntry,
            >| content == spec_serialize(es) && entries_within(es, binary@.len() - end)
        },
        customs_with_side_table(binary@) ==> r is Ok,
{
    let (es, start) = verified_side_table(binary)?;
    proof {
        assert(entries_within(es@, binary@.len() - start));
    }
    Ok(())
}

/// What `merge` writes after the header is the side table section that `verify` reads, and the
/// rest of the module follows unchanged.
pub proof fn lemma_merge_read_back(binary: Seq<u8>, es: Seq<MetadataEntry>)
    requires
        binary.len() >= 8,
        serializable(es),
    ensures
        spec_merge(binary, es).take(8) == binary.take(8),
        side_table_section(spec_merge(binary, es)) matches Some((content, end)) && content
            == spec_serialize(es) && spec_merge(binary, es).skip(end) == binary.skip(8),
{
    let c = spec_serialize(es);
    let name = SECTION_NAME.spec_bytes();
    lemma_serialize_len(es);
    lemma_section_name();
    let total = (1 + name.len() + c.len()) as u32;
    let lt = spec_leb128_encode(total as nat);
    let ln = spec_leb128_encode(name.len());
    assert(ln == seq![18u8]);
    let w = spec_merge(binary, es);
    let rest = binary.skip(8);
    assert(w =~= binary.take(8) + seq![0u8] + lt + ln + name + c + rest);
    assert(w.take(8) =~= binary.take(8));
    let s = w.skip(9);
    assert(s =~= lt + (ln + name + c + rest));
    lemma_leb128_round_trip(total, ln + name + c + rest);
    let k = lt.len();
    let sec = s.subrange(k as int, k + total);
    assert(sec =~= ln + name + c);
    lemma_leb128_round_trip(18u32, name + c);
    assert(sec =~= spec_leb128_encode(18u32 as nat) + (name + c));
    assert(sec.subrange(1, 19) =~= name);
    assert(sec.skip(19) =~= c);
    assert(w.skip(9 + k + total) =~= rest);
}

/// A module of custom sections only has no function body: `prepare` gives it the empty side
/// table, which `merge` can write, and `verify` accepts the merged module.
pub proof fn lemma_merge_customs_verifies(binary: Seq<u8>)
    requires
        binary.len() >= 8,
        binary.take(8) == header(),
        customs_only(binary.skip(8)),
    ensures
        serializable(Seq::<MetadataEntry>::empty()),
        customs_with_side_table(spec_merge(binary, Seq::empty())),
{
    let es = Seq::<MetadataEntry>::empty();
    assert(serializable(es));
    lemma_merge_read_back(binary, es);
    let w = spec_merge(binary, es);
    let (content, end) = side_table_section(w)->Some_0;
    assert(w.skip(end) == binary.skip(8));
    assert(w.len() >= 8);
}

} // verus!
