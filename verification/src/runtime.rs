//! A store of runtime instances addressed by typed addresses, following the specification's
//! structure.
use core::marker::PhantomData;

use vstd::prelude::*;

use crate::error::{invalid, Error};
use crate::module::Module;
use crate::parser::Parser;
use crate::syntax::{ExternType, FuncType, GlobalType, MemType, RefType, TableType};

verus! {

/// Runtime values.
#[derive(Debug, Copy, Clone, PartialEq, Eq, Structural)]
pub enum Val {
    I32(u32),
    I64(u64),
    F32(u32),
    F64(u64),
    V128(u128),
    Null(RefType),
    Ref(usize),
    RefExtern(usize),
}

/// The address of an item of type `T` in a store.
#[derive(Debug)]
pub struct Addr<T> {
    pub addr: usize,
    pub _type: PhantomData<T>,
}

impl<T> Clone for Addr<T> {
    fn clone(&self) -> (r: Self)
        ensures
            r.addr == self.addr,
    {
        Addr { addr: self.addr, _type: PhantomData }
    }
}

impl<T> Copy for Addr<T> {

}

/// A function: defined by a module or by the host.
#[derive(Debug)]
pub enum FuncInst<'m> {
    Guest { type_: FuncType, module: Addr<ModuleInst<'m>>, code: Parser<'m> },
    Host { type_: FuncType },
}

impl<'m> FuncInst<'m> {
    /// The type of the function.
    pub fn type_(&self) -> (r: FuncType)
        ensures
            r@ == match self {
                FuncInst::Guest { type_, .. } => type_@,
                FuncInst::Host { type_ } => type_@,
            },
    {
        match self {
            FuncInst::Guest { type_, .. } => type_.copy(),
            FuncInst::Host { type_ } => type_.copy(),
        }
    }
}

/// A table.
#[derive(Debug)]
pub struct TableInst {
    pub type_: TableType,
    pub elem: Vec<Val>,
}

/// A memory.
#[derive(Debug)]
pub struct MemInst {
    pub type_: MemType,
    pub data: Vec<u8>,
    pub size: u32,
}

/// A global.
#[derive(Debug)]
pub struct GlobalInst {
    pub type_: GlobalType,
    pub value: Val,
}

/// An element segment.
#[derive(Debug)]
pub struct ElemInst {
    pub type_: RefType,
    pub elem: Vec<Val>,
}

/// A data segment.
#[derive(Debug)]
pub struct DataInst<'m> {
    pub data: &'m [u8],
}

/// An export.
#[derive(Debug)]
pub struct ExportInst<'m> {
    pub name: &'m str,
    pub value: ExternVal<'m>,
}

/// What an export refers to.
#[derive(Debug)]
pub enum ExternVal<'m> {
    Func(Addr<FuncInst<'m>>),
    Table(Addr<TableInst>),
    Mem(Addr<MemInst>),
    Global(Addr<GlobalInst>),
}

/// An instance of a module.
#[derive(Debug)]
pub struct ModuleInst<'m> {
    pub module: Module<'m>,
    pub funcaddrs: Vec<Addr<FuncInst<'m>>>,
    pub tableaddrs: Vec<Addr<TableInst>>,
    pub memaddrs: Vec<Addr<MemInst>>,
    pub globaladdrs: Vec<Addr<GlobalInst>>,
    pub exports: Vec<ExportInst<'m>>,
    pub elemaddrs: Vec<usize>,
    pub dataaddrs: Vec<usize>,
}

/// The runtime store.
#[derive(Debug)]
pub struct Store<'m> {
    pub funcs: Vec<FuncInst<'m>>,
    pub tables: Vec<TableInst>,
    pub mems: Vec<MemInst>,
    pub globals: Vec<GlobalInst>,
    pub elems: Vec<ElemInst>,
    pub datas: Vec<DataInst<'m>>,
    pub modules: Vec<ModuleInst<'m>>,
}

impl<'m> Store<'m> {
    /// An empty store.
    pub fn new() -> (r: Store<'m>)
        ensures
            r.funcs@.len() == 0,
            r.tables@.len() == 0,
            r.mems@.len() == 0,
            r.globals@.len() == 0,
            r.elems@.len() == 0,
            r.datas@.len() == 0,
            r.modules@.len() == 0,
    {
        Store {
            funcs: Vec::new(),
            tables: Vec::new(),
            mems: Vec::new(),
            globals: Vec::new(),
            elems: Vec::new(),
            datas: Vec::new(),
            modules: Vec::new(),
        }
    }

    /// The item at an address.
    pub fn get<T: Data<'m>>(&self, p: Addr<T>) -> (r: Result<&T, Error>)
        ensures
            match r {
                Ok(x) => p.addr < T::spec_list(self).len() && *x == T::spec_list(self)[p.addr as int],
                Err(e) => p.addr >= T::spec_list(self).len() && e == Error::Invalid,
            },
    {
        let list = T::list(self);
        if p.addr < list.len() {
            Ok(&list[p.addr])
        } else {
            Err(invalid())
        }
    }

    /// Adds an item and returns its address.
    pub fn insert<T: Data<'m>>(&mut self, x: T) -> (r: Addr<T>)
        ensures
            r.addr == T::spec_list(old(self)).len(),
            T::spec_list(final(self)) == T::spec_list(old(self)).push(x),
    {
        T::push(self, x)
    }
}

/// Items that a store holds in a list.
pub trait Data<'m>: Sized {
    /// The items of this kind in a store.
    spec fn spec_list(store: &Store<'m>) -> Seq<Self>;

    /// The items of this kind in a store.
    fn list<'a>(store: &'a Store<'m>) -> (r: &'a [Self])
        ensures
            r@ == Self::spec_list(store),
    ;

    /// Adds an item of this kind to a store.
    fn push(store: &mut Store<'m>, x: Self) -> (r: Addr<Self>)
        ensures
            r.addr == Self::spec_list(old(store)).len(),
            Self::spec_list(final(store)) == Self::spec_list(old(store)).push(x),
    ;
}

impl<'m> Data<'m> for FuncInst<'m> {
    open spec fn spec_list(store: &Store<'m>) -> Seq<Self> {
        store.funcs@
    }

    fn list<'a>(store: &'a Store<'m>) -> (r: &'a [Self]) {
        store.funcs.as_slice()
    }

    fn push(store: &mut Store<'m>, x: Self) -> (r: Addr<Self>) {
        let addr = Addr { addr: store.funcs.len(), _type: PhantomData };
        store.funcs.push(x);
        addr
    }
}

impl<'m> Data<'m> for TableInst {
    open spec fn spec_list(store: &Store<'m>) -> Seq<Self> {
        store.tables@
    }

    fn list<'a>(store: &'a Store<'m>) -> (r: &'a [Self]) {
        store.tables.as_slice()
    }

    fn push(store: &mut Store<'m>, x: Self) -> (r: Addr<Self>) {
        let addr = Addr { addr: store.tables.len(), _type: PhantomData };
        store.tables.push(x);
        addr
    }
}

impl<'m> Data<'m> for MemInst {
    open spec fn spec_list(store: &Store<'m>) -> Seq<Self> {
        store.mems@
    }

    fn list<'a>(store: &'a Store<'m>) -> (r: &'a [Self]) {
        store.mems.as_slice()
    }

    fn push(store: &mut Store<'m>, x: Self) -> (r: Addr<Self>) {
        let addr = Addr { addr: store.mems.len(), _type: PhantomData };
        store.mems.push(x);
        addr
    }
}

impl<'m> Data<'m> for GlobalInst {
    open spec fn spec_list(store: &Store<'m>) -> Seq<Self> {
        store.globals@
    }

    fn list<'a>(store: &'a Store<'m>) -> (r: &'a [Self]) {
        store.globals.as_slice()
    }

    fn push(store: &mut Store<'m>, x: Self) -> (r: Addr<Self>) {
        let addr = Addr { addr: store.globals.len(), _type: PhantomData };
        store.globals.push(x);
        addr
    }
}

impl<'m> Data<'m> for ModuleInst<'m> {
    open spec fn spec_list(store: &Store<'m>) -> Seq<Self> {
        store.modules@
    }

    fn list<'a>(store: &'a Store<'m>) -> (r: &'a [Self]) {
        store.modules.as_slice()
    }

    fn push(store: &mut Store<'m>, x: Self) -> (r: Addr<Self>) {
        let addr = Addr { addr: store.modules.len(), _type: PhantomData };
        store.modules.push(x);
        addr
    }
}

impl<'m> ExternVal<'m> {
    /// The type of what the export refers to.
    pub fn type_(&self, store: &Store<'m>) -> (r: Result<ExternType, Error>)
        ensures
            r is Ok <==> match self {
                ExternVal::Func(a) => a.addr < store.funcs@.len(),
                ExternVal::Table(a) => a.addr < store.tables@.len(),
                ExternVal::Mem(a) => a.addr < store.mems@.len(),
                ExternVal::Global(a) => a.addr < store.globals@.len(),
            },
    {
        match self {
            ExternVal::Func(a) => Ok(ExternType::Func(store.get(*a)?.type_())),
            ExternVal::Table(a) => Ok(ExternType::Table(store.get(*a)?.type_)),
            ExternVal::Mem(a) => Ok(ExternType::Mem(store.get(*a)?.type_)),
            ExternVal::Global(a) => Ok(ExternType::Global(store.get(*a)?.type_)),
        }
    }
}

/// The state of a computation.
#[derive(Debug)]
pub enum Stack<'m> {
    Frames(Vec<Frame<'m>>),
    Result(Vec<Val>),
    Trap,
}

/// A function call.
#[derive(Debug)]
pub struct Frame<'m> {
    pub arity: usize,
    pub locals: Vec<Val>,
    pub module: Addr<ModuleInst<'m>>,
    pub labels: Vec<Label<'m>>,
}

/// A block.
#[derive(Debug)]
pub struct Label<'m> {
    pub arity: usize,
    pub cont: Option<&'m [u8]>,
    pub values: Vec<Val>,
}

} // verus!
