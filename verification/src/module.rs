//! Validated modules, with their side table, and access to their parts.
use vstd::prelude::*;
use vstd::string::StringSliceAdditionalSpecFns;

use crate::error::{check, invalid, Error};
use crate::parser::{
    same_input, spec_byte_enum, spec_exportdesc, spec_globaltype, spec_limits, spec_name,
    spec_import, spec_skip_to_end, spec_tabletype, spec_u32, Parser, SkipData, SkipElem,
};
use crate::side_table::{spec_serialize, BranchTableEntry, MetadataEntry};
use crate::syntax::{
    ExportDesc, FuncType, GlobalType, Import, ImportDesc, MemType, SectionId, TableType, MEM_MAX,
};
use crate::valid::{bytes_eq, entries_within, header, side_table_section, verified_side_table};

verus! {

/// The content of the section `id` in the sections `s`: sections are skipped until one has the
/// identifier `id` or comes after where it would be (custom sections may be anywhere).
pub open spec fn spec_find_section(s: Seq<u8>, id: SectionId) -> Result<Option<Seq<u8>>, Error>
    decreases s.len(),
{
    if s.len() == 0 {
        Ok(None)
    } else {
        match spec_byte_enum::<SectionId>(s) {
            Err(e) => Err(e),
            Ok((sid, n0)) => {
                let t = s.skip(n0 as int);
                match spec_u32(t) {
                    Err(e) => Err(e),
                    Ok((len, n1)) => if n1 + len > t.len() {
                        Err(Error::Invalid)
                    } else if sid == id {
                        Ok(Some(t.subrange(n1 as int, n1 + len)))
                    } else if sid != SectionId::Custom && id.spec_order() < sid.spec_order() {
                        Ok(None)
                    } else {
                        spec_find_section(t.skip(n1 + len), id)
                    },
                }
            },
        }
    }
}

/// The description of the first of `count` exports in `s` named `name`, if any.
pub open spec fn spec_find_export(s: Seq<u8>, count: nat, name: Seq<u8>) -> Result<
    Option<ExportDesc>,
    Error,
>
    decreases count,
{
    if count == 0 {
        Ok(None)
    } else {
        match spec_name(s) {
            Err(e) => Err(e),
            Ok((x, n0)) => match spec_exportdesc(s.skip(n0 as int)) {
                Err(e) => Err(e),
                Ok((d, n1)) => if x == name {
                    Ok(Some(d))
                } else {
                    spec_find_export(s.skip((n0 + n1) as int), (count - 1) as nat, name)
                },
            },
        }
    }
}

/// The description of the export named `name` in the sections `s`, if any.
pub open spec fn spec_export(s: Seq<u8>, name: Seq<u8>) -> Result<Option<ExportDesc>, Error> {
    match spec_find_section(s, SectionId::Export) {
        Err(e) => Err(e),
        Ok(None) => Ok(None),
        Ok(Some(c)) => match spec_u32(c) {
            Err(e) => Err(e),
            Ok((n, k)) => spec_find_export(c.skip(k as int), n as nat, name),
        },
    }
}

/// Whether the entries of the section `id` are described here: functions, tables, memories and
/// globals.
pub open spec fn entries_specified(id: SectionId) -> bool {
    id is Function || id is Table || id is Memory || id is Global
}

/// The length of the entry of the section `id` at the start of `s`: a type index, a table type,
/// a memory type, or a global type with its initialization expression.
pub open spec fn spec_entry_len(id: SectionId, s: Seq<u8>) -> Option<nat> {
    match id {
        SectionId::Function => match spec_u32(s) {
            Ok((_, n)) => Some(n),
            Err(_) => None,
        },
        SectionId::Table => match spec_tabletype(s) {
            Ok((_, n)) => Some(n),
            Err(_) => None,
        },
        SectionId::Memory => match spec_limits(s, MEM_MAX) {
            Ok((_, n)) => Some(n),
            Err(_) => None,
        },
        SectionId::Global => match spec_globaltype(s) {
            Ok((_, n)) => if n <= s.len() {
                match spec_skip_to_end(s.skip(n as int), 1) {
                    Ok(m) => Some(n + m),
                    Err(_) => None,
                }
            } else {
                None
            },
            Err(_) => None,
        },
        _ => None,
    }
}

/// The length of the `k` first entries of the section `id` at the start of `s`.
pub open spec fn spec_skip_entries(id: SectionId, s: Seq<u8>, k: nat) -> Option<nat>
    decreases k,
{
    if k == 0 {
        Some(0)
    } else {
        match spec_entry_len(id, s) {
            Some(n) => if n <= s.len() {
                match spec_skip_entries(id, s.skip(n as int), (k - 1) as nat) {
                    Some(m) => Some(n + m),
                    None => None,
                }
            } else {
                None
            },
            None => None,
        }
    }
}

/// The bytes from the entry `x` of the section `id` (a vector) in the sections `s`, if the section
/// is present, has such an entry, and the entries before it are well-formed.
pub open spec fn spec_section_entry(s: Seq<u8>, id: SectionId, x: u32) -> Option<Seq<u8>> {
    match spec_find_section(s, id) {
        Ok(Some(c)) => match spec_u32(c) {
            Ok((count, k)) => if x < count {
                match spec_skip_entries(id, c.skip(k as int), x as nat) {
                    Some(m) => Some(c.skip(k as int).skip(m as int)),
                    None => None,
                }
            } else {
                None
            },
            Err(_) => None,
        },
        _ => None,
    }
}

/// Whether the section `id` of the sections `s` has an entry `x`.
pub open spec fn has_entry(s: Seq<u8>, id: SectionId, x: u32) -> bool {
    &&& spec_find_section(s, id) matches Ok(Some(c))
    &&& spec_u32(c) matches Ok((count, _))
    &&& x < count
}

/// Skips an entry of the section `id`.
fn skip_entry(p: &mut Parser, id: SectionId) -> (r: Result<(), Error>)
    requires
        old(p).wf(),
    ensures
        final(p).wf(),
        same_input(*old(p), *final(p)),
        final(p).pos() >= old(p).pos(),
        entries_specified(id) ==> match spec_entry_len(id, old(p).rest()) {
            Some(n) => r is Ok && final(p).pos() == old(p).pos() + n,
            None => r is Err,
        },
{
    let ghost s = old(p).rest();
    proof {
        old(p).lemma_wf();
    }
    match id {
        SectionId::Function => {
            p.parse_typeidx()?;
        },
        SectionId::Table => {
            p.parse_tabletype()?;
        },
        SectionId::Memory => {
            p.parse_memtype()?;
        },
        SectionId::Global => {
            p.parse_globaltype()?;
            proof {
                p.lemma_wf();
                assert(p.rest() =~= s.skip(p.pos() - old(p).pos()));
            }
            p.skip_to_end(0)?;
        },
        SectionId::Element => {
            p.parse_elem(&mut SkipElem { parts: Ghost(Seq::empty()) })?;
        },
        SectionId::Data => {
            p.parse_data(&mut SkipData)?;
        },
        _ => return Err(invalid()),
    }
    proof {
        p.lemma_wf();
    }
    Ok(())
}

/// The module name, name and description of an import.
pub open spec fn import_view<'m>(im: Import<'m>) -> (Seq<u8>, Seq<u8>, ImportDesc) {
    (im.module.spec_bytes(), im.name.spec_bytes(), im.desc)
}

/// The `k` imports at the start of `s`.
pub open spec fn spec_import_list(s: Seq<u8>, k: nat) -> Option<Seq<(Seq<u8>, Seq<u8>, ImportDesc)>>
    decreases k,
{
    if k == 0 {
        Some(Seq::empty())
    } else {
        match spec_import(s) {
            Some((m, x, d, n)) => if n <= s.len() {
                match spec_import_list(s.skip(n as int), (k - 1) as nat) {
                    Some(w) => Some(seq![(m, x, d)] + w),
                    None => None,
                }
            } else {
                None
            },
            None => None,
        }
    }
}

/// The imports declared in the sections `s`.
pub open spec fn spec_imports(s: Seq<u8>) -> Option<Seq<(Seq<u8>, Seq<u8>, ImportDesc)>> {
    match spec_find_section(s, SectionId::Import) {
        Ok(None) => Some(Seq::empty()),
        Ok(Some(c)) => match spec_u32(c) {
            Ok((k, n)) => spec_import_list(c.skip(n as int), k as nat),
            Err(_) => None,
        },
        Err(_) => None,
    }
}

/// Parses an import.
#[verifier::rlimit(30)]
#[verifier::spinoff_prover]
fn parse_import<'m>(p: &mut Parser<'m>) -> (r: Result<Import<'m>, Error>)
    requires
        old(p).wf(),
    ensures
        final(p).wf(),
        same_input(*old(p), *final(p)),
        final(p).pos() >= old(p).pos(),
        match spec_import(old(p).rest()) {
            Some((m, x, d, n)) => r matches Ok(im) && import_view(im) == (m, x, d) && final(p).pos()
                == old(p).pos() + n,
            None => r is Err,
        },
{
    let ghost s = old(p).rest();
    proof {
        old(p).lemma_wf();
    }
    let module = p.parse_name()?;
    proof {
        p.lemma_wf();
        assert(p.rest() =~= s.skip(p.pos() - old(p).pos()));
    }
    let name = p.parse_name()?;
    proof {
        p.lemma_wf();
        assert(p.rest() =~= s.skip(p.pos() - old(p).pos()));
    }
    let desc = p.parse_importdesc()?;
    proof {
        p.lemma_wf();
    }
    Ok(Import { module, name, desc })
}

/// A valid module in binary format, whose side table follows the header.
#[derive(Debug)]
pub struct Module<'m> {
    binary: &'m [u8],
    /// The position of the sections after the side table.
    start: usize,
    types: Vec<FuncType>,
    side_table: Vec<MetadataEntry>,
}

impl<'m> Module<'m> {
    /// The positions of the function bodies are within the module.
    #[verifier::type_invariant]
    closed spec fn wf(&self) -> bool {
        &&& self.binary@.len() <= usize::MAX
        &&& self.start <= self.binary@.len()
        &&& entries_within(self.side_table@, self.binary@.len() - self.start)
    }

    pub closed spec fn spec_binary(&self) -> Seq<u8> {
        self.binary@
    }

    /// The side table of the module.
    pub closed spec fn spec_side_table(&self) -> Seq<MetadataEntry> {
        self.side_table@
    }

    /// The types of the module.
    pub closed spec fn spec_types(&self) -> Seq<FuncType> {
        self.types@
    }

    /// The sections of the module, after the side table.
    pub closed spec fn spec_sections(&self) -> Seq<u8> {
        self.binary@.subrange(self.start as int, self.binary@.len() as int)
    }

    /// Checks a module whose side table follows the header, and keeps its parts.
    pub fn new(binary: &'m [u8]) -> (r: Result<Module<'m>, Error>)
        ensures
            r matches Ok(m) ==> {
                &&& m.spec_binary() == binary@
                &&& binary@.len() >= 8
                &&& binary@.take(8) == header()
                &&& side_table_section(binary@) matches Some((content, start))
                &&& content == spec_serialize(m.spec_side_table())
                &&& m.spec_sections() == binary@.subrange(start, binary@.len() as int)
            },
            crate::valid::customs_with_side_table(binary@) ==> r is Ok,
    {
        let (side_table, start) = verified_side_table(binary)?;
        let mut module = Module { binary, start, types: Vec::new(), side_table };
        proof {
            if crate::valid::customs_with_side_table(binary@) {
                let s = module.spec_sections();
                assert(s =~= binary@.skip(start as int));
                crate::valid::lemma_customs_find_none(s, SectionId::Type);
            }
        }
        let mut types: Vec<FuncType> = Vec::new();
        if let Some(mut p) = module.section(SectionId::Type)? {
            let n = p.parse_vec()?;
            let mut i: usize = 0;
            while i < n
                invariant
                    p.wf(),
                    i <= n,
                    !crate::valid::customs_with_side_table(binary@),
                decreases n - i,
            {
                types.push(p.parse_functype()?);
                i = i + 1;
            }
        }
        module.types = types;
        Ok(module)
    }

    /// A parser of the sections after the side table.
    fn sections(&self) -> (r: Result<Parser<'m>, Error>)
        ensures
            r matches Ok(p) ==> p.wf() && p.rest() == self.spec_sections(),
            r is Ok,
    {
        proof {
            use_type_invariant(self);
        }
        check(self.start <= self.binary.len())?;
        let s = vstd::slice::slice_subrange(self.binary, self.start, self.binary.len());
        Ok(Parser::new(s))
    }

    /// The content of the section `id`, if present.
    pub fn section(&self, id: SectionId) -> (r: Result<Option<Parser<'m>>, Error>)
        ensures
            r matches Ok(Some(p)) ==> p.wf(),
            match spec_find_section(self.spec_sections(), id) {
                Ok(Some(c)) => r matches Ok(Some(p)) && p.rest() == c,
                Ok(None) => r matches Ok(None),
                Err(e) => r == Err::<Option<Parser<'m>>, Error>(e),
            },
    {
        let mut p = self.sections()?;
        let ghost goal = spec_find_section(self.spec_sections(), id);
        loop
            invariant
                p.wf(),
                spec_find_section(p.rest(), id) == goal,
                goal == spec_find_section(self.spec_sections(), id),
            decreases p.rest().len(),
        {
            proof {
                p.lemma_wf();
            }
            if p.is_empty() {
                return Ok(None);
            }
            let mut q = p.save();
            let ghost s = p.rest();
            let sid = q.parse_section_id()?;
            proof {
                assert(q.rest() =~= s.skip(1));
            }
            let ghost t = q.rest();
            let sec = q.split_section()?;
            proof {
                let (len, n1) = spec_u32(t)->Ok_0;
                assert(sec.rest() =~= t.subrange(n1 as int, n1 + len));
                assert(q.rest() =~= t.skip(n1 + len));
            }
            if sid == id {
                return Ok(Some(sec));
            }
            if sid != SectionId::Custom && id.order() < sid.order() {
                return Ok(None);
            }
            proof {
                q.lemma_wf();
            }
            p = q;
        }
    }

    /// The type index of the `x`-th function defined by the module, if its entry is well-formed.
    pub open spec fn spec_func_typeidx(&self, x: u32) -> Option<u32> {
        match spec_section_entry(self.spec_sections(), SectionId::Function, x) {
            Some(c) => match spec_u32(c) {
                Ok((t, _)) => if t < self.spec_types().len() {
                    Some(t)
                } else {
                    None
                },
                Err(_) => None,
            },
            None => None,
        }
    }

    /// The types of the module.
    pub fn types(&self) -> (r: &Vec<FuncType>)
        ensures
            r@ == self.spec_types(),
    {
        &self.types
    }

    /// A parser at the `x`-th entry of the section `id`, a vector.
    #[verifier::rlimit(40)]
    fn section_entry(&self, id: SectionId, x: u32) -> (r: Result<Parser<'m>, Error>)
        ensures
            r matches Ok(p) ==> p.wf(),
            r is Ok ==> has_entry(self.spec_sections(), id, x),
            entries_specified(id) ==> match spec_section_entry(self.spec_sections(), id, x) {
                Some(c) => r matches Ok(p) && p.rest() == c,
                None => r is Err,
            },
    {
        let mut p = match self.section(id)? {
            Some(p) => p,
            None => return Err(invalid()),
        };
        let ghost c = p.rest();
        let ghost pc = p;
        proof {
            p.lemma_wf();
        }
        let n = p.parse_vec()?;
        check((x as usize) < n)?;
        let ghost p0 = p;
        proof {
            p.lemma_wf();
            pc.lemma_wf();
            assert(p.rest().skip(0) =~= p.rest());
            assert(p.rest() =~= c.skip(p.pos() - pc.pos()));
        }
        let mut i: u32 = 0;
        while i < x
            invariant
                p.wf(),
                p0.wf(),
                i <= x,
                crate::parser::same_input(p0, p),
                p.pos() >= p0.pos(),
                p.rest() == p0.rest().skip(p.pos() - p0.pos()),
                entries_specified(id) ==> spec_skip_entries(id, p0.rest(), x as nat) == match spec_skip_entries(
                    id,
                    p.rest(),
                    (x - i) as nat,
                ) {
                    Some(m) => Some((m + (p.pos() - p0.pos())) as nat),
                    None => None,
                },
                entries_specified(id) ==> spec_section_entry(self.spec_sections(), id, x) == match spec_skip_entries(
                    id,
                    p0.rest(),
                    x as nat,
                ) {
                    Some(m) => Some(p0.rest().skip(m as int)),
                    None => None,
                },
            decreases x - i,
        {
            let ghost q = p;
            proof {
                p.lemma_wf();
                p0.lemma_wf();
            }
            skip_entry(&mut p, id)?;
            proof {
                p.lemma_wf();
                q.lemma_wf();
                assert(p.rest() =~= q.rest().skip(p.pos() - q.pos()));
                assert(p.rest() =~= p0.rest().skip(p.pos() - p0.pos()));
            }
            i = i + 1;
        }
        proof {
            assert(p.rest() =~= p0.rest().skip(p.pos() - p0.pos()));
        }
        Ok(p)
    }

    /// The type of the `x`-th function defined by the module.
    pub fn func_type(&self, x: u32) -> (r: Result<FuncType, Error>)
        ensures
            r matches Ok(t) ==> exists|i: int|
                0 <= i < self.spec_types().len() && t@ == (#[trigger] self.spec_types()[i])@,
            match self.spec_func_typeidx(x) {
                Some(i) => r matches Ok(t) && i < self.spec_types().len() && t@ == self.spec_types()[i as int]@,
                None => r is Err,
            },
    {
        let mut p = self.section_entry(SectionId::Function, x)?;
        let t = p.parse_typeidx()? as usize;
        check(t < self.types.len())?;
        let r = self.types[t].copy();
        assert(r@ == self.spec_types()[t as int]@);
        Ok(r)
    }

    /// The type of the `x`-th table defined by the module.
    pub fn table_type(&self, x: u32) -> (r: Result<TableType, Error>)
        ensures
            match spec_section_entry(self.spec_sections(), SectionId::Table, x) {
                Some(c) => match spec_tabletype(c) {
                    Ok((t, _)) => r == Ok::<TableType, Error>(t),
                    Err(_) => r is Err,
                },
                None => r is Err,
            },
    {
        let mut p = self.section_entry(SectionId::Table, x)?;
        p.parse_tabletype()
    }

    /// The type of the `x`-th memory defined by the module.
    pub fn mem_type(&self, x: u32) -> (r: Result<MemType, Error>)
        ensures
            match spec_section_entry(self.spec_sections(), SectionId::Memory, x) {
                Some(c) => match spec_limits(c, MEM_MAX) {
                    Ok((t, _)) => r == Ok::<MemType, Error>(t),
                    Err(_) => r is Err,
                },
                None => r is Err,
            },
    {
        let mut p = self.section_entry(SectionId::Memory, x)?;
        p.parse_memtype()
    }

    /// The type of the `x`-th global defined by the module.
    pub fn global_type(&self, x: u32) -> (r: Result<GlobalType, Error>)
        ensures
            match spec_section_entry(self.spec_sections(), SectionId::Global, x) {
                Some(c) => match spec_globaltype(c) {
                    Ok((t, _)) => r == Ok::<GlobalType, Error>(t),
                    Err(_) => r is Err,
                },
                None => r is Err,
            },
    {
        let mut p = self.section_entry(SectionId::Global, x)?;
        p.parse_globaltype()
    }

    /// A parser at the `x`-th element segment.
    pub fn elem(&self, x: u32) -> (r: Result<Parser<'m>, Error>)
        ensures
            r matches Ok(p) ==> p.wf(),
    {
        self.section_entry(SectionId::Element, x)
    }

    /// A parser at the `x`-th data segment.
    pub fn data(&self, x: u32) -> (r: Result<Parser<'m>, Error>)
        ensures
            r matches Ok(p) ==> p.wf(),
    {
        self.section_entry(SectionId::Data, x)
    }

    /// The imports of the module.
    #[verifier::rlimit(100)]
    #[verifier::spinoff_prover]
    pub fn imports(&self) -> (r: Result<Vec<Import<'m>>, Error>)
        ensures
            match spec_imports(self.spec_sections()) {
                Some(v) => r matches Ok(is) && is@.len() == v.len() && forall|j: int|
                    0 <= j < v.len() ==> import_view(#[trigger] is@[j]) == v[j],
                None => r is Err,
            },
    {
        let mut imports: Vec<Import<'m>> = Vec::new();
        if let Some(mut p) = self.section(SectionId::Import)? {
            let ghost c = p.rest();
            let ghost pc = p;
            proof {
                p.lemma_wf();
            }
            let n = p.parse_vec()?;
            let ghost p0 = p;
            let ghost mut done: Seq<(Seq<u8>, Seq<u8>, ImportDesc)> = Seq::empty();
            proof {
                p.lemma_wf();
                pc.lemma_wf();
                assert(p.rest() =~= c.skip(p.pos() - pc.pos()));
                assert(p.rest().skip(0) =~= p.rest());
                assert(done + spec_import_list(p.rest(), n as nat)->Some_0 =~= spec_import_list(p.rest(), n as nat)->Some_0);
            }
            let mut i: usize = 0;
            while i < n
                invariant
                    p.wf(),
                    p0.wf(),
                    i <= n,
                    same_input(p0, p),
                    p.pos() >= p0.pos(),
                    p.rest() == p0.rest().skip(p.pos() - p0.pos()),
                    spec_imports(self.spec_sections()) == spec_import_list(p0.rest(), n as nat),
                    imports@.len() == i,
                    done.len() == i,
                    forall|j: int| 0 <= j < i ==> import_view(#[trigger] imports@[j]) == done[j],
                    spec_import_list(p0.rest(), n as nat) == match spec_import_list(p.rest(), (n - i) as nat) {
                        Some(w) => Some(done + w),
                        None => None,
                    },
                decreases n - i,
            {
                let ghost q = p;
                let im = parse_import(&mut p)?;
                imports.push(im);
                proof {
                    let v = import_view(im);
                    p.lemma_wf();
                    q.lemma_wf();
                    p0.lemma_wf();
                    assert(p.rest() =~= q.rest().skip(p.pos() - q.pos()));
                    assert(p.rest() =~= p0.rest().skip(p.pos() - p0.pos()));
                    match spec_import_list(p.rest(), (n - i - 1) as nat) {
                        Some(w) => {
                            assert(done + (seq![v] + w) =~= done.push(v) + w);
                        },
                        None => {},
                    }
                    done = done.push(v);
                }
                i = i + 1;
            }
            proof {
                assert(done + Seq::<(Seq<u8>, Seq<u8>, ImportDesc)>::empty() =~= done);
            }
        }
        Ok(imports)
    }

    /// The description of the export `name`, if any.
    pub fn export(&self, name: &str) -> (r: Result<Option<ExportDesc>, Error>)
        ensures
            r == spec_export(self.spec_sections(), name.spec_bytes()),
    {
        let ghost goal = spec_export(self.spec_sections(), name.spec_bytes());
        if let Some(mut p) = self.section(SectionId::Export)? {
            let ghost c = p.rest();
            let ghost p0 = p;
            let n = p.parse_vec()?;
            proof {
                p0.lemma_wf();
                p.lemma_wf();
                let k = spec_u32(c)->Ok_0.1;
                assert(p.rest() =~= c.skip(k as int));
            }
            let mut i: usize = 0;
            while i < n
                invariant
                    p.wf(),
                    i <= n,
                    goal == spec_find_export(p.rest(), (n - i) as nat, name.spec_bytes()),
                    goal == spec_export(self.spec_sections(), name.spec_bytes()),
                decreases n - i,
            {
                let ghost p1 = p;
                let x = p.parse_name()?;
                let ghost p2 = p;
                proof {
                    p1.lemma_wf();
                    p2.lemma_wf();
                    let n0 = spec_name(p1.rest())->Ok_0.1;
                    assert(p2.rest() =~= p1.rest().skip(n0 as int));
                }
                let desc = p.parse_exportdesc()?;
                proof {
                    p.lemma_wf();
                    let s = p1.rest();
                    let n0 = spec_name(s)->Ok_0.1;
                    let n1 = spec_exportdesc(p2.rest())->Ok_0.1;
                    assert(p.rest() =~= s.skip((n0 + n1) as int));
                }
                if bytes_eq(x.as_bytes(), name.as_bytes()) {
                    return Ok(Some(desc));
                }
                i = i + 1;
            }
        }
        Ok(None)
    }

    /// The number of functions defined by the module.
    pub fn funcs_len(&self) -> (r: usize)
        ensures
            r == self.spec_side_table().len(),
    {
        self.side_table.len()
    }

    /// A parser of the body of the `x`-th function defined by the module (from its locals).
    pub fn func(&self, x: usize) -> (r: Result<Parser<'m>, Error>)
        ensures
            r matches Ok(p) ==> p.wf(),
            r matches Ok(p) ==> p.rest() == self.spec_func_body(x as int),
            r is Ok ==> x < self.spec_side_table().len(),
            x < self.spec_side_table().len() ==> r is Ok,
    {
        proof {
            use_type_invariant(self);
        }
        check(x < self.side_table.len())?;
        let state = self.side_table[x].parser_state;
        let s = state.start();
        let e = state.end();
        let len = self.binary.len();
        check(self.start <= len && s <= e && e <= len - self.start)?;
        let body = vstd::slice::slice_subrange(self.binary, self.start + s, self.start + e);
        let p = Parser::new(body);
        proof {
            assert(p.rest() =~= self.spec_func_body(x as int));
        }
        Ok(p)
    }

    /// The body of the `x`-th function defined by the module: the bytes of the sections that its
    /// side table entry delimits.
    pub open spec fn spec_func_body(&self, x: int) -> Seq<u8> {
        let st = self.spec_side_table()[x].parser_state;
        self.spec_sections().subrange(st.spec_start() as int, st.spec_end() as int)
    }

    /// The entry `i` of the branch table of the `x`-th function defined by the module.
    pub fn branch(&self, x: usize, i: usize) -> (r: Result<BranchTableEntry, Error>)
        ensures
            match r {
                Ok(b) => x < self.spec_side_table().len() && i < self.spec_side_table()[x as int].branch_table@.len()
                    && b == self.spec_side_table()[x as int].branch_table@[i as int],
                Err(e) => e == Error::Invalid && !(x < self.spec_side_table().len() && i
                    < self.spec_side_table()[x as int].branch_table@.len()),
            },
    {
        check(x < self.side_table.len())?;
        check(i < self.side_table[x].branch_table.len())?;
        Ok(self.side_table[x].branch_table[i])
    }
}

} // verus!
