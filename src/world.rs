//! The metadata of a component: its type table and its imports and exports.
use vstd::prelude::*;
use crate::types::{WitType, TypeDefKind, table_wf, type_valid, table_well_formed, type_in_table};

verus! {

/// A named parameter or a named result.
#[derive(Clone, Debug, PartialEq, Eq)]
pub struct Param {
    pub name: String,
    pub ty: WitType,
}

/// The results of a function: a list of named values or one anonymous value.
#[derive(Clone, Debug, PartialEq, Eq)]
pub enum Results {
    Named(Vec<Param>),
    Anon(WitType),
}

/// A function signature.
#[derive(Clone, Debug, PartialEq, Eq)]
pub struct Function {
    pub name: String,
    pub params: Vec<Param>,
    pub results: Results,
}

/// A named group of functions and resource types.
#[derive(Clone, Debug, PartialEq, Eq)]
pub struct Interface {
    pub name: String,
    pub functions: Vec<Function>,
    pub resources: Vec<String>,
    /// The interface belongs to the host-capability namespace.
    pub capability: bool,
}

/// What a component imports or exports.
#[derive(Clone, Debug, PartialEq, Eq)]
pub enum WorldItem {
    Function(Function),
    Interface(Interface),
}

/// The parsed metadata of one component.
#[derive(Clone, Debug, PartialEq, Eq)]
pub struct ComponentMeta {
    pub types: Vec<TypeDefKind>,
    pub imports: Vec<WorldItem>,
    pub exports: Vec<WorldItem>,
}

/// The target of an item identifier: a function at the root, or a function
/// inside a named interface.
#[derive(Clone, Debug, PartialEq, Eq)]
pub struct ItemIdent {
    pub interface: Option<String>,
    pub item: String,
}

/// An item identifier or an interface identifier.
#[derive(Clone, Debug, PartialEq, Eq)]
pub enum Ident {
    Item(ItemIdent),
    Interface(String),
}

/// The value behind an optional reference.
pub open spec fn opt_deref<T>(o: Option<&T>) -> Option<T> {
    match o {
        Some(x) => Some(*x),
        None => None,
    }
}

pub open spec fn opt_str_view(s: Option<String>) -> Option<Seq<char>> {
    match s {
        Some(s) => Some(s@),
        None => None,
    }
}

impl ItemIdent {
    pub open spec fn interface_view(&self) -> Option<Seq<char>> {
        opt_str_view(self.interface)
    }
}

pub open spec fn params_valid(ps: Seq<Param>, n: nat) -> bool {
    forall|k: int| 0 <= k < ps.len() ==> type_valid(#[trigger] ps[k].ty, n)
}

pub open spec fn function_valid(f: Function, n: nat) -> bool {
    &&& params_valid(f.params@, n)
    &&& match f.results {
        Results::Named(rs) => params_valid(rs@, n),
        Results::Anon(t) => type_valid(t, n),
    }
}

pub open spec fn item_valid(it: WorldItem, n: nat) -> bool {
    match it {
        WorldItem::Function(f) => function_valid(f, n),
        WorldItem::Interface(i) => forall|k: int| 0 <= k < i.functions.len() ==> function_valid(#[trigger] i.functions@[k], n),
    }
}

/// The first function named `name` in `fs[..n]`.
pub open spec fn find_fn(fs: Seq<Function>, name: Seq<char>, n: int) -> Option<Function>
    decreases n,
{
    if n <= 0 {
        None
    } else {
        match find_fn(fs, name, n - 1) {
            Some(f) => Some(f),
            None => if fs[n - 1].name@ == name { Some(fs[n - 1]) } else { None },
        }
    }
}

/// The first item among `items[..n]` that is a root function named `name`.
pub open spec fn find_root_fn(items: Seq<WorldItem>, name: Seq<char>, n: int) -> Option<Function>
    decreases n,
{
    if n <= 0 {
        None
    } else {
        match find_root_fn(items, name, n - 1) {
            Some(f) => Some(f),
            None => match items[n - 1] {
                WorldItem::Function(f) => if f.name@ == name { Some(f) } else { None },
                _ => None,
            },
        }
    }
}

/// The first item among `items[..n]` that is an interface named `name`.
pub open spec fn find_iface(items: Seq<WorldItem>, name: Seq<char>, n: int) -> Option<Interface>
    decreases n,
{
    if n <= 0 {
        None
    } else {
        match find_iface(items, name, n - 1) {
            Some(i) => Some(i),
            None => match items[n - 1] {
                WorldItem::Interface(i) => if i.name@ == name { Some(i) } else { None },
                _ => None,
            },
        }
    }
}

/// The function that an item identifier denotes among `items`.
pub open spec fn resolve_fn(items: Seq<WorldItem>, iface: Option<Seq<char>>, name: Seq<char>) -> Option<Function> {
    match iface {
        None => find_root_fn(items, name, items.len() as int),
        Some(i) => match find_iface(items, i, items.len() as int) {
            Some(it) => find_fn(it.functions@, name, it.functions.len() as int),
            None => None,
        },
    }
}

impl ComponentMeta {
    /// The type table is well formed and every signature refers only into it.
    pub open spec fn wf(&self) -> bool {
        &&& table_wf(self.types@)
        &&& forall|k: int| 0 <= k < self.imports.len() ==> item_valid(#[trigger] self.imports@[k], self.types.len() as nat)
        &&& forall|k: int| 0 <= k < self.exports.len() ==> item_valid(#[trigger] self.exports@[k], self.types.len() as nat)
    }

    pub open spec fn spec_imported_function(&self, id: ItemIdent) -> Option<Function> {
        resolve_fn(self.imports@, id.interface_view(), id.item@)
    }

    pub open spec fn spec_exported_function(&self, id: ItemIdent) -> Option<Function> {
        resolve_fn(self.exports@, id.interface_view(), id.item@)
    }

    pub open spec fn spec_imported_interface(&self, name: Seq<char>) -> Option<Interface> {
        find_iface(self.imports@, name, self.imports.len() as int)
    }

    pub open spec fn spec_exported_interface(&self, name: Seq<char>) -> Option<Interface> {
        find_iface(self.exports@, name, self.exports.len() as int)
    }

    /// The signature of the imported function that `id` names.
    pub fn imported_function(&self, id: &ItemIdent) -> (r: Option<&Function>)
        ensures
            opt_deref(r) == self.spec_imported_function(*id),
    {
        resolve_function(&self.imports, id)
    }

    /// The signature of the exported function that `id` names.
    pub fn exported_function(&self, id: &ItemIdent) -> (r: Option<&Function>)
        ensures
            opt_deref(r) == self.spec_exported_function(*id),
    {
        resolve_function(&self.exports, id)
    }

    /// The imported interface named `name`.
    pub fn imported_interface(&self, name: &String) -> (r: Option<&Interface>)
        ensures
            opt_deref(r) == self.spec_imported_interface(name@),
    {
        find_interface(&self.imports, name)
    }

    /// The exported interface named `name`.
    pub fn exported_interface(&self, name: &String) -> (r: Option<&Interface>)
        ensures
            opt_deref(r) == self.spec_exported_interface(name@),
    {
        find_interface(&self.exports, name)
    }
}

fn params_in_table(ps: &Vec<Param>, n: usize) -> (r: bool)
    ensures
        r == params_valid(ps@, n as nat),
{
    let mut k: usize = 0;
    while k < ps.len()
        invariant
            k <= ps.len(),
            forall|m: int| 0 <= m < k ==> type_valid(#[trigger] ps@[m].ty, n as nat),
        decreases ps.len() - k,
    {
        if !type_in_table(ps[k].ty, n) {
            return false;
        }
        k = k + 1;
    }
    true
}

fn function_in_table(f: &Function, n: usize) -> (r: bool)
    ensures
        r == function_valid(*f, n as nat),
{
    params_in_table(&f.params, n) && match &f.results {
        Results::Named(rs) => params_in_table(rs, n),
        Results::Anon(t) => type_in_table(*t, n),
    }
}

#[verifier::loop_isolation(false)]
fn items_in_table(items: &Vec<WorldItem>, n: usize) -> (r: bool)
    ensures
        r == forall|k: int| 0 <= k < items.len() ==> item_valid(#[trigger] items@[k], n as nat),
{
    let mut k: usize = 0;
    while k < items.len()
        invariant
            k <= items.len(),
            forall|m: int| 0 <= m < k ==> item_valid(#[trigger] items@[m], n as nat),
        decreases items.len() - k,
    {
        match &items[k] {
            WorldItem::Function(f) => {
                if !function_in_table(f, n) {
                    assert(!item_valid(items@[k as int], n as nat));
                    return false;
                }
            },
            WorldItem::Interface(i) => {
                let mut j: usize = 0;
                while j < i.functions.len()
                    invariant
                        j <= i.functions.len(),
                        forall|m: int| 0 <= m < j ==> function_valid(#[trigger] i.functions@[m], n as nat),
                    decreases i.functions.len() - j,
                {
                    if !function_in_table(&i.functions[j], n) {
                        assert(!function_valid(i.functions@[j as int], n as nat));
                        assert(!item_valid(items@[k as int], n as nat));
                        return false;
                    }
                    j = j + 1;
                }
            },
        }
        k = k + 1;
    }
    true
}

impl ComponentMeta {
    /// Whether the metadata is well formed (see `wf`).
    pub fn is_well_formed(&self) -> (r: bool)
        ensures
            r == self.wf(),
    {
        table_well_formed(&self.types) && items_in_table(&self.imports, self.types.len())
            && items_in_table(&self.exports, self.types.len())
    }

    /// Whether the component imports an interface of the host-capability namespace.
    pub fn imports_capabilities(&self) -> (r: bool)
        ensures
            r == exists|k: int| 0 <= k < self.imports.len() && #[trigger] self.imports@[k] is Interface
                && self.imports@[k]->Interface_0.capability,
    {
        let mut k: usize = 0;
        while k < self.imports.len()
            invariant
                k <= self.imports.len(),
                forall|m: int| 0 <= m < k ==> !(#[trigger] self.imports@[m] is Interface && self.imports@[m]->Interface_0.capability),
            decreases self.imports.len() - k,
        {
            if let WorldItem::Interface(i) = &self.imports[k] {
                if i.capability {
                    return true;
                }
            }
            k = k + 1;
        }
        false
    }
}

/// The first function of `fs` named `name`.
pub fn find_function<'a>(fs: &'a Vec<Function>, name: &String) -> (r: Option<&'a Function>)
    ensures
        opt_deref(r) == find_fn(fs@, name@, fs.len() as int),
{
    let mut found: Option<&'a Function> = None;
    let mut k: usize = 0;
    while k < fs.len()
        invariant
            k <= fs.len(),
            opt_deref(found) == find_fn(fs@, name@, k as int),
        decreases fs.len() - k,
    {
        if found.is_none() && fs[k].name == *name {
            found = Some(&fs[k]);
        }
        k = k + 1;
    }
    found
}

fn find_interface<'a>(items: &'a Vec<WorldItem>, name: &String) -> (r: Option<&'a Interface>)
    ensures
        opt_deref(r) == find_iface(items@, name@, items.len() as int),
{
    let mut found: Option<&'a Interface> = None;
    let mut k: usize = 0;
    while k < items.len()
        invariant
            k <= items.len(),
            opt_deref(found) == find_iface(items@, name@, k as int),
        decreases items.len() - k,
    {
        if found.is_none() {
            if let WorldItem::Interface(i) = &items[k] {
                if i.name == *name {
                    found = Some(i);
                }
            }
        }
        k = k + 1;
    }
    found
}

fn resolve_function<'a>(items: &'a Vec<WorldItem>, id: &ItemIdent) -> (r: Option<&'a Function>)
    ensures
        opt_deref(r) == resolve_fn(items@, id.interface_view(), id.item@),
{
    match &id.interface {
        Some(name) => match find_interface(items, name) {
            Some(i) => find_function(&i.functions, &id.item),
            None => None,
        },
        None => {
            let mut found: Option<&'a Function> = None;
            let mut k: usize = 0;
            while k < items.len()
                invariant
                    k <= items.len(),
                    opt_deref(found) == find_root_fn(items@, id.item@, k as int),
                decreases items.len() - k,
            {
                if found.is_none() {
                    if let WorldItem::Function(f) = &items[k] {
                        if f.name == id.item {
                            found = Some(f);
                        }
                    }
                }
                k = k + 1;
            }
            found
        },
    }
}


proof fn lemma_find_fn_valid(fs: Seq<Function>, name: Seq<char>, n: int, len: nat)
    requires
        0 <= n <= fs.len(),
        forall|k: int| 0 <= k < fs.len() ==> function_valid(#[trigger] fs[k], len),
    ensures
        find_fn(fs, name, n) is Some ==> function_valid(find_fn(fs, name, n)->Some_0, len),
    decreases n,
{
    if n > 0 {
        lemma_find_fn_valid(fs, name, n - 1, len);
    }
}

proof fn lemma_find_root_fn_valid(items: Seq<WorldItem>, name: Seq<char>, n: int, len: nat)
    requires
        0 <= n <= items.len(),
        forall|k: int| 0 <= k < items.len() ==> item_valid(#[trigger] items[k], len),
    ensures
        find_root_fn(items, name, n) is Some ==> function_valid(find_root_fn(items, name, n)->Some_0, len),
    decreases n,
{
    if n > 0 {
        lemma_find_root_fn_valid(items, name, n - 1, len);
        assert(item_valid(items[n - 1], len));
    }
}

/// An interface found among `items` is one of them.
proof fn lemma_find_iface_in(items: Seq<WorldItem>, name: Seq<char>, n: int)
    requires
        0 <= n <= items.len(),
        find_iface(items, name, n) is Some,
    ensures
        exists|k: int| 0 <= k < n && items[k] == WorldItem::Interface(find_iface(items, name, n)->Some_0),
    decreases n,
{
    if find_iface(items, name, n - 1) is Some {
        lemma_find_iface_in(items, name, n - 1);
    } else {
        assert(items[n - 1] == WorldItem::Interface(find_iface(items, name, n)->Some_0));
    }
}

/// Whatever an identifier resolves to among valid items is itself valid.
pub proof fn lemma_resolved_valid(items: Seq<WorldItem>, iface: Option<Seq<char>>, name: Seq<char>, len: nat)
    requires
        forall|k: int| 0 <= k < items.len() ==> item_valid(#[trigger] items[k], len),
    ensures
        resolve_fn(items, iface, name) is Some ==> function_valid(resolve_fn(items, iface, name)->Some_0, len),
        iface is Some && find_iface(items, iface->Some_0, items.len() as int) is Some ==> forall|k: int|
            0 <= k < find_iface(items, iface->Some_0, items.len() as int)->Some_0.functions.len() ==> function_valid(
                #[trigger] find_iface(items, iface->Some_0, items.len() as int)->Some_0.functions@[k], len),
{
    match iface {
        None => lemma_find_root_fn_valid(items, name, items.len() as int, len),
        Some(i) => {
            if find_iface(items, i, items.len() as int) is Some {
                let it = find_iface(items, i, items.len() as int)->Some_0;
                lemma_find_iface_in(items, i, items.len() as int);
                let k = choose|k: int| 0 <= k < items.len() && items[k] == WorldItem::Interface(it);
                assert(item_valid(items[k], len));
                assert(item_valid(WorldItem::Interface(it), len));
                assert forall|m: int| 0 <= m < it.functions@.len() implies function_valid(#[trigger] it.functions@[m], len) by {
                    assert(function_valid(it.functions@[m], len));
                }
                lemma_find_fn_valid(it.functions@, name, it.functions.len() as int, len);
            }
        },
    }
}


/// A function found by name among `fs[..n]` is one of them, and has that name.
pub proof fn lemma_find_fn_found(fs: Seq<Function>, name: Seq<char>, n: int)
    requires
        0 <= n <= fs.len(),
        find_fn(fs, name, n) is Some,
    ensures
        exists|k: int| 0 <= k < n && fs[k] == find_fn(fs, name, n)->Some_0 && fs[k].name@ == name,
    decreases n,
{
    if find_fn(fs, name, n - 1) is Some {
        lemma_find_fn_found(fs, name, n - 1);
    } else {
        assert(fs[n - 1] == find_fn(fs, name, n)->Some_0);
    }
}

/// A name that some function of `fs[..n]` has is found.
pub proof fn lemma_find_fn_some(fs: Seq<Function>, name: Seq<char>, n: int, k: int)
    requires
        0 <= k < n <= fs.len(),
        fs[k].name@ == name,
    ensures
        find_fn(fs, name, n) is Some,
    decreases n,
{
    if k < n - 1 {
        lemma_find_fn_some(fs, name, n - 1, k);
    }
}

} // verus!
