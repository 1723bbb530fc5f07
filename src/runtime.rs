//! The linker state of the primary component: its metadata, the binding
//! table, and the bindings that the current instance was made with.
use vstd::prelude::*;
use crate::bindings::{BindingTable, Handler, ImportPath, PathKey};
use crate::check::{LinkError, signature_verdict, interface_verdict, check_signature, check_interface, lemma_each_fn_binds, iface_fn_verdict,
    first_fn_failure, lemma_first_fn_failure_fails};
use crate::world::{
    ComponentMeta, Function, Ident, ItemIdent, WorldItem, lemma_resolved_valid, resolve_fn,
    find_fn, lemma_find_fn_found, lemma_find_fn_some,
};

verus! {

/// The import paths that one import item requires.
pub open spec fn item_requires(it: WorldItem, p: PathKey) -> bool {
    match it {
        WorldItem::Function(f) => p == (None::<Seq<char>>, f.name@),
        WorldItem::Interface(i) => p.0 == Some(i.name@) && (
            (exists|k: int| 0 <= k < i.functions.len() && #[trigger] i.functions@[k].name@ == p.1)
            || (exists|k: int| 0 <= k < i.resources.len() && #[trigger] i.resources@[k]@ == p.1)),
    }
}

/// `it` calls for a stub reporting `name` at `p`: a root function, or a
/// function of an interface outside the host-capability namespace.
pub open spec fn calls_for_stub(it: WorldItem, p: PathKey, name: Seq<char>) -> bool {
    match it {
        WorldItem::Function(f) => p == (None::<Seq<char>>, f.name@) && name == f.name@,
        WorldItem::Interface(i) => !i.capability && p.0 == Some(i.name@) && name == i.name@
            && exists|k: int| 0 <= k < i.functions.len() && #[trigger] i.functions@[k].name@ == p.1,
    }
}

/// `it` calls for the host at `p`: a function or resource type of a
/// host-capability interface, which the host-capability linker provides.
pub open spec fn calls_for_host(it: WorldItem, p: PathKey) -> bool {
    match it {
        WorldItem::Function(_) => false,
        WorldItem::Interface(i) => i.capability && p.0 == Some(i.name@) && (
            (exists|k: int| 0 <= k < i.functions.len() && #[trigger] i.functions@[k].name@ == p.1)
            || (exists|k: int| 0 <= k < i.resources.len() && #[trigger] i.resources@[k]@ == p.1)),
    }
}

/// `it` calls for an opaque host resource at `p`: a resource type of an
/// interface outside the host-capability namespace.
pub open spec fn calls_for_resource(it: WorldItem, p: PathKey) -> bool {
    match it {
        WorldItem::Function(_) => false,
        WorldItem::Interface(i) => !i.capability && p.0 == Some(i.name@)
            && exists|k: int| 0 <= k < i.resources.len() && #[trigger] i.resources@[k]@ == p.1,
    }
}

/// Some import of `meta` calls for the handler `h` at `p`.
pub open spec fn initial_handler(meta: ComponentMeta, p: PathKey, h: Handler) -> bool {
    match h {
        Handler::Stub(name) => exists|k: int| #![trigger meta.imports@[k]] 0 <= k < meta.imports.len() && calls_for_stub(meta.imports@[k], p, name@),
        Handler::Host => exists|k: int| #![trigger meta.imports@[k]] 0 <= k < meta.imports.len() && calls_for_host(meta.imports@[k], p),
        Handler::Resource => exists|k: int| #![trigger meta.imports@[k]] 0 <= k < meta.imports.len() && calls_for_resource(meta.imports@[k], p),
        Handler::Donor { .. } => false,
    }
}

/// Every import path that the metadata declares.
pub open spec fn required(meta: ComponentMeta) -> Set<PathKey> {
    Set::new(|p: PathKey| exists|k: int| 0 <= k < meta.imports.len() && #[trigger] item_requires(meta.imports@[k], p))
}

/// Every import path of `meta` has a handler in `m`.
pub open spec fn covers(meta: ComponentMeta, m: Map<PathKey, Handler>) -> bool {
    forall|p: PathKey| #[trigger] required(meta).contains(p) ==> m.contains_key(p)
}

/// `h` can answer calls at the import path `p` of `meta`: a donor handler
/// names a recorded donor whose export's signature agrees with the import's.
pub open spec fn handler_fits(meta: ComponentMeta, donors: Seq<ComponentMeta>, p: PathKey, h: Handler) -> bool {
    match h {
        Handler::Donor { donor, export } => donor < donors.len() && match (
            resolve_fn(meta.imports@, p.0, p.1),
            donors[donor as int].spec_exported_function(export),
        ) {
            (Some(f), Some(g)) => signature_verdict(meta.types@, f, donors[donor as int].types@, g) is Ok,
            _ => false,
        },
        _ => true,
    }
}

/// The primary can be instantiated against `m`: every import path has a
/// handler, and every handler fits its import.
pub open spec fn instantiable(meta: ComponentMeta, donors: Seq<ComponentMeta>, m: Map<PathKey, Handler>) -> bool {
    forall|p: PathKey| #[trigger] required(meta).contains(p) ==> m.contains_key(p) && handler_fits(meta, donors, p, m[p])
}

/// The key of the import path that an item identifier names.
pub open spec fn ident_key(id: ItemIdent) -> PathKey {
    (id.interface_view(), id.item@)
}

/// The verdict on binding the donor's export `export_id` to the import `import_id`.
pub open spec fn function_binding_verdict(meta: ComponentMeta, import_id: ItemIdent, donor: ComponentMeta, export_id: ItemIdent) -> Result<(), LinkError> {
    match meta.spec_imported_function(import_id) {
        None => Err(LinkError::UnknownImport(import_id.item)),
        Some(f) => match donor.spec_exported_function(export_id) {
            None => Err(LinkError::UnknownExport(export_id.item)),
            Some(g) => signature_verdict(meta.types@, f, donor.types@, g),
        },
    }
}

/// The verdict on binding the donor's interface `export_name` to the imported
/// interface `import_name`.
pub open spec fn interface_binding_verdict(meta: ComponentMeta, import_name: String, donor: ComponentMeta, export_name: String) -> Result<(), LinkError> {
    match meta.spec_imported_interface(import_name@) {
        None => Err(LinkError::UnknownImport(import_name)),
        Some(imp) => match donor.spec_exported_interface(export_name@) {
            None => Err(LinkError::UnknownExport(export_name)),
            Some(exp) => interface_verdict(meta.types@, imp, donor.types@, exp),
        },
    }
}

/// `m` after binding the first `n` functions `fs` of the imported interface
/// `import_name` to the same-named functions of the donor's interface `export_name`.
pub open spec fn bind_interface(
    m: Map<PathKey, Handler>,
    import_name: String,
    export_name: String,
    fs: Seq<Function>,
    n: int,
    donor: usize,
) -> Map<PathKey, Handler>
    decreases n,
{
    if n <= 0 {
        m
    } else {
        bind_interface(m, import_name, export_name, fs, n - 1, donor).insert(
            (Some(import_name@), fs[n - 1].name@),
            Handler::Donor { donor, export: ItemIdent { interface: Some(export_name), item: fs[n - 1].name } },
        )
    }
}

/// What `bind_interface` holds at `p`: a donor handler for the same-named
/// export where `p` names one of the functions, and `m`'s entry elsewhere.
proof fn lemma_bind_interface_at(
    m: Map<PathKey, Handler>,
    import_name: String,
    export_name: String,
    fs: Seq<Function>,
    n: int,
    donor: usize,
    p: PathKey,
)
    requires
        0 <= n <= fs.len(),
    ensures
        (exists|k: int| 0 <= k < n && p == (Some(import_name@), #[trigger] fs[k].name@)) ==> {
            &&& bind_interface(m, import_name, export_name, fs, n, donor).contains_key(p)
            &&& exists|k: int| 0 <= k < n && #[trigger] fs[k].name@ == p.1
                && bind_interface(m, import_name, export_name, fs, n, donor)[p]
                == Handler::Donor { donor, export: ItemIdent { interface: Some(export_name), item: fs[k].name } }
        },
        !(exists|k: int| 0 <= k < n && p == (Some(import_name@), #[trigger] fs[k].name@)) ==> {
            &&& bind_interface(m, import_name, export_name, fs, n, donor).contains_key(p) == m.contains_key(p)
            &&& bind_interface(m, import_name, export_name, fs, n, donor)[p] == m[p]
        },
    decreases n,
{
    if n > 0 {
        lemma_bind_interface_at(m, import_name, export_name, fs, n - 1, donor, p);
        if p == (Some(import_name@), fs[n - 1].name@) {
            assert(fs[n - 1].name@ == p.1);
        } else if exists|k: int| 0 <= k < n && p == (Some(import_name@), #[trigger] fs[k].name@) {
            let k = choose|k: int| 0 <= k < n && p == (Some(import_name@), #[trigger] fs[k].name@);
            assert(k < n - 1);
        }
    }
}

/// The primary component and its import bindings.
pub struct Runtime {
    component: (ComponentMeta, Vec<u8>),
    table: BindingTable,
    instance: Ghost<Map<PathKey, Handler>>,
    donors: Vec<ComponentMeta>,
}

impl Runtime {
    pub closed spec fn wf(&self) -> bool {
        &&& self.table.wf()
        &&& self.component.0.wf()
        &&& forall|k: int| 0 <= k < self.donors.len() ==> (#[trigger] self.donors@[k]).wf()
    }

    /// The metadata of the donors bound so far; donor handlers name them by index.
    pub closed spec fn donors(&self) -> Seq<ComponentMeta> {
        self.donors@
    }

    /// Donor indices fit in `usize`: the next donor's index is `donors().len()`.
    pub proof fn lemma_donors_bounded(&self)
        ensures
            self.donors().len() <= usize::MAX,
    {
        assert(self.donors.len() == self.donors@.len());
    }

    /// A well-formed runtime holds well-formed metadata, so that verdicts on
    /// its types can be unfolded.
    pub proof fn lemma_meta_wf(&self)
        requires
            self.wf(),
        ensures
            self.meta().wf(),
    {
    }

    /// The metadata of the primary component.
    pub closed spec fn meta(&self) -> ComponentMeta {
        self.component.0
    }

    /// The binary of the primary component.
    pub closed spec fn bytes(&self) -> Seq<u8> {
        self.component.1@
    }

    /// The binding table.
    pub closed spec fn bindings(&self) -> Map<PathKey, Handler> {
        self.table@
    }

    /// The bindings that the current instance was made with; invocations see these.
    pub closed spec fn instance(&self) -> Map<PathKey, Handler> {
        self.instance@
    }

    /// Loads the primary component: every function it imports is bound to a
    /// stub, or to the host when its interface is a host capability, and every
    /// imported resource type to an opaque host resource; then instantiates.
    pub fn init(component_bytes: Vec<u8>, meta: ComponentMeta) -> (r: Runtime)
        requires
            meta.wf(),
        ensures
            r.wf(),
            r.meta() == meta,
            r.bytes() == component_bytes@,
            r.bindings().dom() == required(meta),
            forall|p: PathKey| #[trigger] r.bindings().contains_key(p) ==> initial_handler(meta, p, r.bindings()[p]),
            covers(meta, r.bindings()),
            r.donors() == Seq::<ComponentMeta>::empty(),
            instantiable(meta, r.donors(), r.bindings()),
            r.instance() == r.bindings(),
    {
        let table = populate_stubs(&meta);
        let ghost m = table@;
        let rt = Runtime { component: (meta, component_bytes), table, instance: Ghost(m), donors: Vec::new() };
        assert(m.dom() =~= required(meta));
        assert(m.restrict(required(meta)) =~= m);
        rt
    }

    /// The binary of the primary component.
    pub fn component_bytes(&self) -> (r: &[u8])
        ensures
            r@ == self.bytes(),
    {
        self.component.1.as_slice()
    }

    /// The handler that the binding table holds at `path`.
    pub fn binding(&self, path: &ImportPath) -> (r: Option<&Handler>)
        requires
            self.wf(),
        ensures
            match r {
                Some(h) => self.bindings().contains_key(path.key()) && self.bindings()[path.key()] == *h,
                None => !self.bindings().contains_key(path.key()),
            },
    {
        self.table.lookup(path)
    }

    /// The metadata of the primary component.
    pub fn component_meta(&self) -> (r: &ComponentMeta)
        ensures
            *r == self.meta(),
    {
        &self.component.0
    }

    /// Binds `handler` at `path` without publishing it: the current instance
    /// keeps the bindings it was made with until the next `refresh`.
    pub fn install(&mut self, path: ImportPath, handler: Handler)
        requires
            old(self).wf(),
        ensures
            final(self).wf(),
            final(self).bindings() == old(self).bindings().insert(path.key(), handler),
            final(self).instance() == old(self).instance(),
            final(self).meta() == old(self).meta(),
            final(self).bytes() == old(self).bytes(),
            final(self).donors() == old(self).donors(),
    {
        self.table.install(path, handler);
    }

    /// Instantiates the primary against the current binding table. It
    /// succeeds exactly when every import has a handler and every donor
    /// handler's signature agrees with its import; then the new instance is
    /// made with the bindings of the imports, and otherwise nothing changes.
    pub fn refresh(&mut self) -> (r: Result<(), LinkError>)
        requires
            old(self).wf(),
        ensures
            final(self).wf(),
            final(self).meta() == old(self).meta(),
            final(self).bytes() == old(self).bytes(),
            final(self).bindings() == old(self).bindings(),
            final(self).donors() == old(self).donors(),
            r is Ok <==> instantiable(old(self).meta(), old(self).donors(), old(self).bindings()),
            r is Ok ==> final(self).instance() == old(self).bindings().restrict(required(old(self).meta())),
            r is Err ==> final(self).instance() == old(self).instance() && r->Err_0 is InstantiationFailed,
    {
        match first_unfit(&self.component.0, &self.donors, &self.table) {
            Some(name) => Err(LinkError::InstantiationFailed(name)),
            None => {
                self.instance = Ghost(self.table@.restrict(required(self.component.0)));
                Ok(())
            },
        }
    }

    /// Replaces the primary component and instantiates it against the
    /// bindings as they stand; no binding is carried over or renamed.
    pub fn set_component(&mut self, component_bytes: Vec<u8>, meta: ComponentMeta) -> (r: Result<(), LinkError>)
        requires
            old(self).wf(),
            meta.wf(),
        ensures
            final(self).wf(),
            final(self).meta() == meta,
            final(self).bytes() == component_bytes@,
            final(self).bindings() == old(self).bindings(),
            final(self).donors() == old(self).donors(),
            r is Ok <==> instantiable(meta, old(self).donors(), old(self).bindings()),
            r is Ok ==> final(self).instance() == old(self).bindings().restrict(required(meta)),
            r is Err ==> final(self).instance() == old(self).instance() && r->Err_0 is InstantiationFailed,
    {
        self.component = (meta, component_bytes);
        self.refresh()
    }

    /// The signature of the primary's export that `ident` names. When the
    /// named interface is not exported, the error names the interface;
    /// otherwise a missing export is named by its function.
    pub fn get_func(&self, ident: &ItemIdent) -> (r: Result<&Function, LinkError>)
        ensures
            match self.meta().spec_exported_function(*ident) {
                Some(f) => r is Ok && *r->Ok_0 == f,
                None => match ident.interface {
                    Some(i) => if self.meta().spec_exported_interface(i@) is None {
                        r == Err::<&Function, LinkError>(LinkError::NoSuchExport(i))
                    } else {
                        r == Err::<&Function, LinkError>(LinkError::NoSuchExport(ident.item))
                    },
                    None => r == Err::<&Function, LinkError>(LinkError::NoSuchExport(ident.item)),
                },
            },
    {
        if let Some(i) = &ident.interface {
            if self.component.0.exported_interface(i).is_none() {
                return Err(LinkError::NoSuchExport(i.clone()));
            }
        }
        match self.component.0.exported_function(ident) {
            Some(f) => Ok(f),
            None => Err(LinkError::NoSuchExport(ident.item.clone())),
        }
    }

    /// Binds the donor's export `export_id` to the primary's import
    /// `import_id`, after checking that their signatures agree, and
    /// instantiates the primary anew. A rejected binding changes nothing.
    pub fn stub_function(&mut self, import_id: &ItemIdent, export_id: ItemIdent, donor: ComponentMeta) -> (r: Result<(), LinkError>)
        requires
            old(self).wf(),
            donor.wf(),
        ensures
            final(self).wf(),
            final(self).meta() == old(self).meta(),
            final(self).bytes() == old(self).bytes(),
            function_binding_verdict(old(self).meta(), *import_id, donor, export_id) is Err ==> {
                &&& r == function_binding_verdict(old(self).meta(), *import_id, donor, export_id)
                &&& *final(self) == *old(self)
            },
            function_binding_verdict(old(self).meta(), *import_id, donor, export_id) is Ok ==> {
                &&& final(self).bindings() == old(self).bindings().insert(
                    ident_key(*import_id),
                    Handler::Donor { donor: old(self).donors().len() as usize, export: export_id },
                )
                &&& final(self).donors() == old(self).donors().push(donor)
                &&& (r is Ok <==> instantiable(old(self).meta(), final(self).donors(), final(self).bindings()))
                &&& (instantiable(old(self).meta(), old(self).donors(), old(self).bindings()) ==> r is Ok)
                &&& (r is Ok ==> final(self).instance() == final(self).bindings().restrict(required(old(self).meta())))
                &&& (r is Err ==> final(self).instance() == old(self).instance())
            },
    {
        let ghost old_donors = self.donors@;
        let ghost old_map = self.table@;
        let verdict = check_function_binding(&self.component.0, import_id, &donor, &export_id);
        if verdict.is_err() {
            return verdict;
        }
        let interface = match &import_id.interface {
            Some(i) => Some(i.clone()),
            None => None,
        };
        let path = ImportPath { interface, name: import_id.item.clone() };
        let donor_id = self.donors.len();
        self.donors.push(donor);
        self.table.install(path, Handler::Donor { donor: donor_id, export: export_id });
        proof {
            let meta = self.component.0;
            if instantiable(meta, old_donors, old_map) {
                assert forall|p: PathKey| #[trigger] required(meta).contains(p) implies self.table@.contains_key(p)
                    && handler_fits(meta, self.donors@, p, self.table@[p]) by {
                    if p != path.key() {
                        if let Handler::Donor { donor: d, export: _ } = old_map[p] {
                            assert(self.donors@[d as int] == old_donors[d as int]);
                        }
                    } else {
                        assert(self.donors@[donor_id as int] == donor);
                    }
                }
            }
        }
        self.refresh()
    }

    /// Binds every function of the imported interface `import_name` to the
    /// same-named function of the donor's exported interface `export_name`,
    /// after checking all of them, and instantiates the primary anew. A
    /// rejected binding changes nothing.
    pub fn stub_interface(&mut self, import_name: &String, export_name: &String, donor: ComponentMeta) -> (r: Result<(), LinkError>)
        requires
            old(self).wf(),
            donor.wf(),
        ensures
            final(self).wf(),
            final(self).meta() == old(self).meta(),
            final(self).bytes() == old(self).bytes(),
            interface_binding_verdict(old(self).meta(), *import_name, donor, *export_name) is Err ==> {
                &&& r == interface_binding_verdict(old(self).meta(), *import_name, donor, *export_name)
                &&& *final(self) == *old(self)
            },
            interface_binding_verdict(old(self).meta(), *import_name, donor, *export_name) is Ok ==> {
                let fs = old(self).meta().spec_imported_interface(import_name@)->Some_0.functions@;
                &&& final(self).bindings() == bind_interface(old(self).bindings(), *import_name, *export_name, fs, fs.len() as int, old(self).donors().len() as usize)
                &&& final(self).donors() == old(self).donors().push(donor)
                &&& (r is Ok <==> instantiable(old(self).meta(), final(self).donors(), final(self).bindings()))
                &&& (instantiable(old(self).meta(), old(self).donors(), old(self).bindings()) ==> r is Ok)
                &&& (r is Ok ==> final(self).instance() == final(self).bindings().restrict(required(old(self).meta())))
                &&& (r is Err ==> final(self).instance() == old(self).instance())
            },
    {
        let verdict = check_interface_binding(&self.component.0, import_name, &donor, export_name);
        if verdict.is_err() {
            return verdict;
        }
        let imp = match self.component.0.imported_interface(import_name) {
            Some(i) => i,
            None => return Err(LinkError::UnknownImport(import_name.clone())),
        };
        let ghost fs = imp.functions@;
        let donor_id = self.donors.len();
        let mut table = BindingTable::new();
        std::mem::swap(&mut table, &mut self.table);
        let ghost start = table@;
        let mut k: usize = 0;
        while k < imp.functions.len()
            invariant
                k <= imp.functions.len(),
                fs == imp.functions@,
                table.wf(),
                table@ == bind_interface(start, *import_name, *export_name, fs, k as int, donor_id),
            decreases imp.functions.len() - k,
        {
            let name = imp.functions[k].name.clone();
            let path = ImportPath { interface: Some(import_name.clone()), name };
            let export = ItemIdent { interface: Some(export_name.clone()), item: imp.functions[k].name.clone() };
            table.install(path, Handler::Donor { donor: donor_id, export });
            k = k + 1;
        }
        self.table = table;
        let ghost old_donors = self.donors@;
        self.donors.push(donor);
        proof {
            let meta = self.component.0;
            let exp = donor.spec_exported_interface(export_name@)->Some_0;
            let gs = exp.functions@;
            assert(interface_binding_verdict(meta, *import_name, donor, *export_name) is Ok);
            assert(fs == meta.spec_imported_interface(import_name@)->Some_0.functions@);
            assert(interface_verdict(meta.types@, meta.spec_imported_interface(import_name@)->Some_0, donor.types@, exp) is Ok);
            if first_fn_failure(meta.types@, fs, donor.types@, gs, fs.len() as int) is Some {
                lemma_first_fn_failure_fails(meta.types@, fs, donor.types@, gs, fs.len() as int);
            }
            lemma_each_fn_binds(meta.types@, fs, donor.types@, gs, fs.len() as int);
            if instantiable(meta, old_donors, start) {
                assert forall|p: PathKey| #[trigger] required(meta).contains(p) implies self.table@.contains_key(p)
                    && handler_fits(meta, self.donors@, p, self.table@[p]) by {
                    lemma_bind_interface_at(start, *import_name, *export_name, fs, fs.len() as int, donor_id, p);
                    if exists|k: int| 0 <= k < fs.len() && p == (Some(import_name@), #[trigger] fs[k].name@) {
                        let k = choose|k: int| 0 <= k < fs.len() && #[trigger] fs[k].name@ == p.1
                            && self.table@[p] == Handler::Donor {
                                donor: donor_id,
                                export: ItemIdent { interface: Some(*export_name), item: fs[k].name },
                            };
                        assert(self.donors@[donor_id as int] == donor);
                        lemma_find_fn_some(fs, p.1, fs.len() as int, k);
                        lemma_find_fn_found(fs, p.1, fs.len() as int);
                        let j = choose|j: int| 0 <= j < fs.len() && fs[j] == find_fn(fs, p.1, fs.len() as int)->Some_0
                            && fs[j].name@ == p.1;
                        assert(iface_fn_verdict(meta.types@, fs[j], donor.types@, gs) is Ok);
                    } else {
                        if let Handler::Donor { donor: d, export: _ } = start[p] {
                            assert(self.donors@[d as int] == old_donors[d as int]);
                        }
                    }
                }
            }
        }
        self.refresh()
    }

    /// Binds a donor's export to an import of the primary: a function to a
    /// function or an interface to an interface. Binding an interface to a
    /// function, or a function to an interface, is refused before anything
    /// else is looked at, and changes nothing.
    pub fn stub(&mut self, import_ident: Ident, export_ident: Ident, donor: ComponentMeta) -> (r: Result<(), LinkError>)
        requires
            old(self).wf(),
            donor.wf(),
        ensures
            final(self).wf(),
            final(self).meta() == old(self).meta(),
            (import_ident is Item) != (export_ident is Item) ==> r == Err::<(), LinkError>(LinkError::ShapeMismatch) && *final(self) == *old(self),
            import_ident is Item && export_ident is Item ==> {
                let v = function_binding_verdict(old(self).meta(), import_ident->Item_0, donor, export_ident->Item_0);
                &&& (v is Err ==> r == v && *final(self) == *old(self))
                &&& (v is Ok ==> final(self).bindings() == old(self).bindings().insert(
                    ident_key(import_ident->Item_0),
                    Handler::Donor { donor: old(self).donors().len() as usize, export: export_ident->Item_0 },
                ))
                &&& (v is Ok ==> final(self).donors() == old(self).donors().push(donor))
                &&& (v is Ok ==> (r is Ok <==> instantiable(old(self).meta(), final(self).donors(), final(self).bindings())))
                &&& (v is Ok && instantiable(old(self).meta(), old(self).donors(), old(self).bindings()) ==> r is Ok)
                &&& (v is Ok && r is Ok ==> final(self).instance() == final(self).bindings().restrict(required(old(self).meta())))
            },
            import_ident is Interface && export_ident is Interface ==> {
                let v = interface_binding_verdict(old(self).meta(), import_ident->Interface_0, donor, export_ident->Interface_0);
                let fs = old(self).meta().spec_imported_interface(import_ident->Interface_0@)->Some_0.functions@;
                &&& (v is Err ==> r == v && *final(self) == *old(self))
                &&& (v is Ok ==> final(self).bindings() == bind_interface(
                    old(self).bindings(), import_ident->Interface_0, export_ident->Interface_0, fs, fs.len() as int, old(self).donors().len() as usize))
                &&& (v is Ok ==> final(self).donors() == old(self).donors().push(donor))
                &&& (v is Ok ==> (r is Ok <==> instantiable(old(self).meta(), final(self).donors(), final(self).bindings())))
                &&& (v is Ok && instantiable(old(self).meta(), old(self).donors(), old(self).bindings()) ==> r is Ok)
                &&& (v is Ok && r is Ok ==> final(self).instance() == final(self).bindings().restrict(required(old(self).meta())))
            },
    {
        match (import_ident, export_ident) {
            (Ident::Item(i), Ident::Item(e)) => self.stub_function(&i, e, donor),
            (Ident::Interface(i), Ident::Interface(e)) => self.stub_interface(&i, &e, donor),
            (Ident::Interface(_), Ident::Item(_)) => Err(LinkError::ShapeMismatch),
            (Ident::Item(_), Ident::Interface(_)) => Err(LinkError::ShapeMismatch),
        }
    }
}

/// Checks a proposed binding of the donor's exported interface `export_name`
/// to the primary's imported interface `import_name`, without touching any state.
pub fn check_interface_binding(meta: &ComponentMeta, import_name: &String, donor: &ComponentMeta, export_name: &String) -> (r: Result<(), LinkError>)
    requires
        meta.wf(),
        donor.wf(),
    ensures
        r == interface_binding_verdict(*meta, *import_name, *donor, *export_name),
{
    let imp = match meta.imported_interface(import_name) {
        Some(i) => i,
        None => return Err(LinkError::UnknownImport(import_name.clone())),
    };
    let exp = match donor.exported_interface(export_name) {
        Some(e) => e,
        None => return Err(LinkError::UnknownExport(export_name.clone())),
    };
    proof {
        lemma_resolved_valid(meta.imports@, Some(import_name@), import_name@, meta.types@.len());
        lemma_resolved_valid(donor.exports@, Some(export_name@), export_name@, donor.types@.len());
    }
    check_interface(&meta.types, imp, &donor.types, exp)
}

/// Checks a proposed binding of the donor's export `export_id` to the
/// primary's import `import_id`, without touching any state.
pub fn check_function_binding(meta: &ComponentMeta, import_id: &ItemIdent, donor: &ComponentMeta, export_id: &ItemIdent) -> (r: Result<(), LinkError>)
    requires
        meta.wf(),
        donor.wf(),
    ensures
        r == function_binding_verdict(*meta, *import_id, *donor, *export_id),
{
    let f = match meta.imported_function(import_id) {
        Some(f) => f,
        None => return Err(LinkError::UnknownImport(import_id.item.clone())),
    };
    let g = match donor.exported_function(export_id) {
        Some(g) => g,
        None => return Err(LinkError::UnknownExport(export_id.item.clone())),
    };
    proof {
        lemma_resolved_valid(meta.imports@, import_id.interface_view(), import_id.item@, meta.types@.len());
        lemma_resolved_valid(donor.exports@, export_id.interface_view(), export_id.item@, donor.types@.len());
    }
    check_signature(&meta.types, f, &donor.types, g)
}


/// A table that binds every import of `meta`: functions and resource types of
/// host-capability interfaces to the host, other resource types to opaque host
/// resources, and every other function to a stub that reports the import's
/// qualified name.
#[verifier::loop_isolation(false)]
pub fn populate_stubs(meta: &ComponentMeta) -> (r: BindingTable)
    ensures
        r.wf(),
        r@.dom() == required(*meta),
        forall|p: PathKey| #[trigger] r@.contains_key(p) ==> initial_handler(*meta, p, r@[p]),
{
    let mut table = BindingTable::new();
    let mut k: usize = 0;
    while k < meta.imports.len()
        invariant
            k <= meta.imports.len(),
            table.wf(),
            forall|p: PathKey| #[trigger] table@.contains_key(p) ==> required(*meta).contains(p) && initial_handler(*meta, p, table@[p]),
            forall|k2: int, p: PathKey| 0 <= k2 < k && #[trigger] item_requires(meta.imports@[k2], p) ==> table@.contains_key(p),
        decreases meta.imports.len() - k,
    {
        let ghost before = table@;
        match &meta.imports[k] {
            WorldItem::Function(f) => {
                let ghost key = (None::<Seq<char>>, f.name@);
                assert(item_requires(meta.imports@[k as int], key));
                let reported = f.name.clone();
                assert(calls_for_stub(meta.imports@[k as int], key, reported@));
                assert(initial_handler(*meta, key, Handler::Stub(reported)));
                table.install(ImportPath { interface: None, name: f.name.clone() }, Handler::Stub(reported));
            },
            WorldItem::Interface(i) => {
                let mut j: usize = 0;
                while j < i.functions.len()
                    invariant
                        j <= i.functions.len(),
                        table.wf(),
                        forall|p: PathKey| #[trigger] table@.contains_key(p) ==> required(*meta).contains(p) && initial_handler(*meta, p, table@[p]),
                        forall|p: PathKey| before.contains_key(p) ==> #[trigger] table@.contains_key(p),
                        forall|m: int| 0 <= m < j ==> table@.contains_key((Some(i.name@), #[trigger] i.functions@[m].name@)),
                    decreases i.functions.len() - j,
                {
                    let ghost key = (Some(i.name@), i.functions@[j as int].name@);
                    assert(item_requires(meta.imports@[k as int], key));
                    assert(i.capability ==> calls_for_host(meta.imports@[k as int], key));
                    assert(!i.capability ==> calls_for_stub(meta.imports@[k as int], key, i.name@));
                    let handler = if i.capability {
                        Handler::Host
                    } else {
                        Handler::Stub(i.name.clone())
                    };
                    assert(initial_handler(*meta, key, handler));
                    table.install(ImportPath { interface: Some(i.name.clone()), name: i.functions[j].name.clone() }, handler);
                    j = j + 1;
                }
                let ghost mid = table@;
                let mut j: usize = 0;
                while j < i.resources.len()
                    invariant
                        j <= i.resources.len(),
                        table.wf(),
                        forall|p: PathKey| #[trigger] table@.contains_key(p) ==> required(*meta).contains(p) && initial_handler(*meta, p, table@[p]),
                        forall|p: PathKey| mid.contains_key(p) ==> #[trigger] table@.contains_key(p),
                        forall|m: int| 0 <= m < j ==> table@.contains_key((Some(i.name@), #[trigger] i.resources@[m]@)),
                    decreases i.resources.len() - j,
                {
                    let ghost key = (Some(i.name@), i.resources@[j as int]@);
                    assert(item_requires(meta.imports@[k as int], key));
                    assert(i.capability ==> calls_for_host(meta.imports@[k as int], key));
                    assert(!i.capability ==> calls_for_resource(meta.imports@[k as int], key));
                    let handler = if i.capability {
                        Handler::Host
                    } else {
                        Handler::Resource
                    };
                    assert(initial_handler(*meta, key, handler));
                    table.install(ImportPath { interface: Some(i.name.clone()), name: i.resources[j].clone() }, handler);
                    j = j + 1;
                }
                assert forall|p: PathKey| #[trigger] item_requires(meta.imports@[k as int], p) implies table@.contains_key(p) by {
                    if exists|m: int| 0 <= m < i.functions.len() && #[trigger] i.functions@[m].name@ == p.1 {
                        let m = choose|m: int| 0 <= m < i.functions.len() && #[trigger] i.functions@[m].name@ == p.1;
                        assert(mid.contains_key((Some(i.name@), i.functions@[m].name@)));
                    } else {
                        let m = choose|m: int| 0 <= m < i.resources.len() && #[trigger] i.resources@[m]@ == p.1;
                        assert(table@.contains_key((Some(i.name@), i.resources@[m]@)));
                    }
                }
            },
        }
        assert forall|k2: int, p: PathKey| 0 <= k2 < k + 1 && #[trigger] item_requires(meta.imports@[k2], p) implies table@.contains_key(p) by {
            if k2 < k {
                assert(before.contains_key(p));
            }
        }
        k = k + 1;
    }
    assert(table@.dom() =~= required(*meta));
    table
}

/// `m` binds `p` to a handler that fits it.
pub open spec fn path_ok(meta: ComponentMeta, donors: Seq<ComponentMeta>, m: Map<PathKey, Handler>, p: PathKey) -> bool {
    m.contains_key(p) && handler_fits(meta, donors, p, m[p])
}

fn path_fits(meta: &ComponentMeta, donors: &Vec<ComponentMeta>, table: &BindingTable, path: &ImportPath) -> (r: bool)
    requires
        table.wf(),
        meta.wf(),
        forall|k: int| 0 <= k < donors.len() ==> (#[trigger] donors@[k]).wf(),
    ensures
        r == path_ok(*meta, donors@, table@, path.key()),
{
    match table.lookup(path) {
        None => false,
        Some(Handler::Donor { donor, export }) => {
            if *donor >= donors.len() {
                return false;
            }
            let d = &donors[*donor];
            let interface = match &path.interface {
                Some(i) => Some(i.clone()),
                None => None,
            };
            let id = ItemIdent { interface, item: path.name.clone() };
            match (meta.imported_function(&id), d.exported_function(export)) {
                (Some(f), Some(g)) => {
                    proof {
                        lemma_resolved_valid(meta.imports@, id.interface_view(), id.item@, meta.types@.len());
                        lemma_resolved_valid(d.exports@, export.interface_view(), export.item@, d.types@.len());
                    }
                    check_signature(&meta.types, f, &d.types, g).is_ok()
                },
                _ => false,
            }
        },
        Some(_) => true,
    }
}

/// The qualified name of the first import with a function or resource that
/// `table` leaves unbound, or binds to a donor export that does not fit.
#[verifier::loop_isolation(false)]
fn first_unfit(meta: &ComponentMeta, donors: &Vec<ComponentMeta>, table: &BindingTable) -> (r: Option<String>)
    requires
        table.wf(),
        meta.wf(),
        forall|k: int| 0 <= k < donors.len() ==> (#[trigger] donors@[k]).wf(),
    ensures
        r is None <==> instantiable(*meta, donors@, table@),
{
    let mut k: usize = 0;
    while k < meta.imports.len()
        invariant
            k <= meta.imports.len(),
            forall|k2: int, p: PathKey| 0 <= k2 < k && #[trigger] item_requires(meta.imports@[k2], p) ==> path_ok(*meta, donors@, table@, p),
        decreases meta.imports.len() - k,
    {
        match &meta.imports[k] {
            WorldItem::Function(f) => {
                let path = ImportPath { interface: None, name: f.name.clone() };
                if !path_fits(meta, donors, table, &path) {
                    assert(item_requires(meta.imports@[k as int], path.key()));
                    assert(required(*meta).contains(path.key()));
                    return Some(f.name.clone());
                }
            },
            WorldItem::Interface(i) => {
                let mut j: usize = 0;
                while j < i.functions.len()
                    invariant
                        j <= i.functions.len(),
                        forall|m: int| 0 <= m < j ==> path_ok(*meta, donors@, table@, (Some(i.name@), #[trigger] i.functions@[m].name@)),
                    decreases i.functions.len() - j,
                {
                    let path = ImportPath { interface: Some(i.name.clone()), name: i.functions[j].name.clone() };
                    if !path_fits(meta, donors, table, &path) {
                        assert(item_requires(meta.imports@[k as int], path.key()));
                        assert(required(*meta).contains(path.key()));
                        return Some(i.name.clone());
                    }
                    j = j + 1;
                }
                let mut j: usize = 0;
                while j < i.resources.len()
                    invariant
                        j <= i.resources.len(),
                        forall|m: int| 0 <= m < j ==> path_ok(*meta, donors@, table@, (Some(i.name@), #[trigger] i.resources@[m]@)),
                    decreases i.resources.len() - j,
                {
                    let path = ImportPath { interface: Some(i.name.clone()), name: i.resources[j].clone() };
                    if !path_fits(meta, donors, table, &path) {
                        assert(item_requires(meta.imports@[k as int], path.key()));
                        assert(required(*meta).contains(path.key()));
                        return Some(i.name.clone());
                    }
                    j = j + 1;
                }
                assert forall|p: PathKey| #[trigger] item_requires(meta.imports@[k as int], p) implies path_ok(*meta, donors@, table@, p) by {
                    if exists|m: int| 0 <= m < i.functions.len() && #[trigger] i.functions@[m].name@ == p.1 {
                        let m = choose|m: int| 0 <= m < i.functions.len() && #[trigger] i.functions@[m].name@ == p.1;
                        assert(path_ok(*meta, donors@, table@, (Some(i.name@), i.functions@[m].name@)));
                    } else {
                        let m = choose|m: int| 0 <= m < i.resources.len() && #[trigger] i.resources@[m]@ == p.1;
                        assert(path_ok(*meta, donors@, table@, (Some(i.name@), i.resources@[m]@)));
                    }
                }
            },
        }
        k = k + 1;
    }
    None
}


/// After the primary is replaced (`set_component` or `compose`) and
/// instantiated, an import path that the new component no longer declares
/// plays no part in the new instance, whatever the table still binds there.
pub proof fn lemma_stale_binding_unused(before: Runtime, after: Runtime, p: PathKey)
    requires
        after.instance() == before.bindings().restrict(required(after.meta())),
        !required(after.meta()).contains(p),
    ensures
        !after.instance().contains_key(p),
{
}

/// Bindings become visible only through `refresh`: while a handler is
/// installed, calls keep seeing the instance made before (`install` leaves it
/// as it was), and once `refresh` succeeds, calls see the new handler at every
/// declared import path.
pub proof fn lemma_refresh_publishes(before: Runtime, installed: Runtime, refreshed: Runtime, path: ImportPath, h: Handler)
    requires
        installed.bindings() == before.bindings().insert(path.key(), h),
        installed.meta() == before.meta(),
        refreshed.instance() == installed.bindings().restrict(required(installed.meta())),
        required(before.meta()).contains(path.key()),
    ensures
        refreshed.instance().contains_key(path.key()),
        refreshed.instance()[path.key()] == h,
        forall|p: PathKey| #[trigger] required(before.meta()).contains(p) && p != path.key() && before.bindings().contains_key(p)
            ==> refreshed.instance()[p] == before.bindings()[p],
{
}

} // verus!
