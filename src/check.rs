//! Type checking of a proposed binding of a donor export to a primary import.
use vstd::prelude::*;
use crate::types::{TypeDefKind, types_eq, types_equal, table_wf, type_valid};
use crate::world::{
    Param, Results, Function, Interface, function_valid, find_fn, find_function,
    opt_deref,
};

verus! {

/// Why an operation on the linker failed.
#[allow(inconsistent_fields)]
#[derive(Clone, Debug, PartialEq, Eq)]
pub enum LinkError {
    /// The identifier does not name an import of the primary component.
    UnknownImport(String),
    /// The identifier does not name an export of the donor component.
    UnknownExport(String),
    /// An interface was to be bound to a function, or a function to an interface.
    ShapeMismatch,
    /// The functions differ in their number of parameters or named results.
    ArityMismatch { function: String },
    /// A parameter (named by the import) or the anonymous result (`arg` is
    /// absent) has differing types.
    TypeMismatch { function: String, arg: Option<String> },
    /// One function has named results and the other an anonymous one.
    ReturnKindMismatch { function: String },
    /// The export lacks a named result of the import.
    ReturnNameMismatch { function: String, name: String },
    /// A named result has differing types.
    ReturnTypeMismatch { function: String, name: String },
    /// The donor's interface lacks a function of the imported interface.
    MissingExportFunction(String),
    /// The donor could not be instantiated.
    DonorInstantiationFailed(String),
    /// The primary could not be instantiated against the binding table.
    InstantiationFailed(String),
    /// A call failed in the engine.
    InvocationFailed(String),
    /// The current primary instance has no such export.
    NoSuchExport(String),
    /// A donor handler was entered while the donor store was held.
    DonorReentry,
    /// The composer rejected the adapter.
    CompositionFailed(String),
}

/// The first position below `n` at which the parameter types differ.
pub open spec fn first_param_mismatch(
    u1: Seq<TypeDefKind>,
    p1: Seq<Param>,
    u2: Seq<TypeDefKind>,
    p2: Seq<Param>,
    n: int,
) -> Option<int>
    decreases n,
{
    if n <= 0 {
        None
    } else {
        match first_param_mismatch(u1, p1, u2, p2, n - 1) {
            Some(k) => Some(k),
            None => if types_eq(u1, p1[n - 1].ty, u2, p2[n - 1].ty) { None } else { Some(n - 1) },
        }
    }
}

/// The first named result of `es` called `name`.
pub open spec fn find_param(es: Seq<Param>, name: Seq<char>, n: int) -> Option<Param>
    decreases n,
{
    if n <= 0 {
        None
    } else {
        match find_param(es, name, n - 1) {
            Some(p) => Some(p),
            None => if es[n - 1].name@ == name { Some(es[n - 1]) } else { None },
        }
    }
}

/// The named result `r` of the import is matched by the export's results `es`.
pub open spec fn named_result_ok(u1: Seq<TypeDefKind>, r: Param, u2: Seq<TypeDefKind>, es: Seq<Param>) -> bool {
    match find_param(es, r.name@, es.len() as int) {
        Some(e) => types_eq(u1, r.ty, u2, e.ty),
        None => false,
    }
}

/// The first of the import's named results below `n` that the export does not match.
pub open spec fn first_result_mismatch(
    u1: Seq<TypeDefKind>,
    is: Seq<Param>,
    u2: Seq<TypeDefKind>,
    es: Seq<Param>,
    n: int,
) -> Option<int>
    decreases n,
{
    if n <= 0 {
        None
    } else {
        match first_result_mismatch(u1, is, u2, es, n - 1) {
            Some(k) => Some(k),
            None => if named_result_ok(u1, is[n - 1], u2, es) { None } else { Some(n - 1) },
        }
    }
}

/// The verdict on binding the export `g` (types in `u2`) to the import `f`
/// (types in `u1`): parameter count, then parameter types by position, then
/// results (both anonymous and equal, or both named with every import result
/// present by name in the export with an equal type).
pub open spec fn signature_verdict(u1: Seq<TypeDefKind>, f: Function, u2: Seq<TypeDefKind>, g: Function) -> Result<(), LinkError> {
    if f.params.len() != g.params.len() {
        Err(LinkError::ArityMismatch { function: f.name })
    } else if first_param_mismatch(u1, f.params@, u2, g.params@, f.params.len() as int) is Some {
        let k = first_param_mismatch(u1, f.params@, u2, g.params@, f.params.len() as int)->Some_0;
        Err(LinkError::TypeMismatch { function: f.name, arg: Some(f.params@[k].name) })
    } else {
        match (f.results, g.results) {
            (Results::Anon(a), Results::Anon(b)) => if types_eq(u1, a, u2, b) {
                Ok(())
            } else {
                Err(LinkError::TypeMismatch { function: f.name, arg: None })
            },
            (Results::Named(is), Results::Named(es)) => if is.len() != es.len() {
                Err(LinkError::ArityMismatch { function: f.name })
            } else {
                match first_result_mismatch(u1, is@, u2, es@, is.len() as int) {
                    None => Ok(()),
                    Some(k) => if find_param(es@, is@[k].name@, es.len() as int) is None {
                        Err(LinkError::ReturnNameMismatch { function: f.name, name: is@[k].name })
                    } else {
                        Err(LinkError::ReturnTypeMismatch { function: f.name, name: is@[k].name })
                    },
                }
            },
            _ => Err(LinkError::ReturnKindMismatch { function: f.name }),
        }
    }
}

fn find_named_result<'a>(es: &'a Vec<Param>, name: &String) -> (r: Option<&'a Param>)
    ensures
        opt_deref(r) == find_param(es@, name@, es.len() as int),
{
    let mut found: Option<&'a Param> = None;
    let mut k: usize = 0;
    while k < es.len()
        invariant
            k <= es.len(),
            opt_deref(found) == find_param(es@, name@, k as int),
        decreases es.len() - k,
    {
        if found.is_none() && es[k].name == *name {
            found = Some(&es[k]);
        }
        k = k + 1;
    }
    found
}

/// Checks that the export `g` of the donor (type table `u2`) can stand for the
/// import `f` of the primary (type table `u1`).
#[verifier::loop_isolation(false)]
pub fn check_signature(u1: &Vec<TypeDefKind>, f: &Function, u2: &Vec<TypeDefKind>, g: &Function) -> (r: Result<(), LinkError>)
    requires
        table_wf(u1@),
        table_wf(u2@),
        function_valid(*f, u1@.len() as nat),
        function_valid(*g, u2@.len() as nat),
    ensures
        r == signature_verdict(u1@, *f, u2@, *g),
{
    if f.params.len() != g.params.len() {
        return Err(LinkError::ArityMismatch { function: f.name.clone() });
    }
    let mut k: usize = 0;
    while k < f.params.len()
        invariant
            k <= f.params.len(),
            first_param_mismatch(u1@, f.params@, u2@, g.params@, k as int) is None,
        decreases f.params.len() - k,
    {
        assert(type_valid(f.params@[k as int].ty, u1@.len() as nat));
        assert(type_valid(g.params@[k as int].ty, u2@.len() as nat));
        if !types_equal(u1, f.params[k].ty, u2, g.params[k].ty) {
            proof {
                lemma_first_param_stable(u1@, f.params@, u2@, g.params@, k + 1, f.params.len() as int);
            }
            return Err(LinkError::TypeMismatch { function: f.name.clone(), arg: Some(f.params[k].name.clone()) });
        }
        k = k + 1;
    }
    match (&f.results, &g.results) {
        (Results::Anon(a), Results::Anon(b)) => {
            if types_equal(u1, *a, u2, *b) {
                Ok(())
            } else {
                Err(LinkError::TypeMismatch { function: f.name.clone(), arg: None })
            }
        },
        (Results::Named(is), Results::Named(es)) => {
            if is.len() != es.len() {
                return Err(LinkError::ArityMismatch { function: f.name.clone() });
            }
            let mut k: usize = 0;
            while k < is.len()
                invariant
                    k <= is.len(),
                    first_result_mismatch(u1@, is@, u2@, es@, k as int) is None,
                decreases is.len() - k,
            {
                assert(type_valid(is@[k as int].ty, u1@.len() as nat));
                match find_named_result(es, &is[k].name) {
                    None => {
                        proof {
                            lemma_first_result_stable(u1@, is@, u2@, es@, k + 1, is.len() as int);
                        }
                        return Err(LinkError::ReturnNameMismatch { function: f.name.clone(), name: is[k].name.clone() });
                    },
                    Some(e) => {
                        proof {
                            lemma_find_param_in(es@, is@[k as int].name@, es.len() as int);
                        }
                        assert(type_valid(e.ty, u2@.len() as nat));
                        if !types_equal(u1, is[k].ty, u2, e.ty) {
                            proof {
                                lemma_first_result_stable(u1@, is@, u2@, es@, k + 1, is.len() as int);
                            }
                            return Err(LinkError::ReturnTypeMismatch { function: f.name.clone(), name: is[k].name.clone() });
                        }
                    },
                }
                k = k + 1;
            }
            Ok(())
        },
        _ => Err(LinkError::ReturnKindMismatch { function: f.name.clone() }),
    }
}

proof fn lemma_first_result_stable(u1: Seq<TypeDefKind>, is: Seq<Param>, u2: Seq<TypeDefKind>, es: Seq<Param>, m: int, n: int)
    requires
        0 <= m <= n,
        first_result_mismatch(u1, is, u2, es, m) is Some,
    ensures
        first_result_mismatch(u1, is, u2, es, n) == first_result_mismatch(u1, is, u2, es, m),
    decreases n - m,
{
    if n > m {
        lemma_first_result_stable(u1, is, u2, es, m, n - 1);
    }
}

proof fn lemma_first_param_stable(u1: Seq<TypeDefKind>, p1: Seq<Param>, u2: Seq<TypeDefKind>, p2: Seq<Param>, m: int, n: int)
    requires
        0 <= m <= n,
        first_param_mismatch(u1, p1, u2, p2, m) is Some,
    ensures
        first_param_mismatch(u1, p1, u2, p2, n) == first_param_mismatch(u1, p1, u2, p2, m),
    decreases n - m,
{
    if n > m {
        lemma_first_param_stable(u1, p1, u2, p2, m, n - 1);
    }
}

proof fn lemma_find_param_in(es: Seq<Param>, name: Seq<char>, n: int)
    requires
        0 <= n <= es.len(),
        find_param(es, name, n) is Some,
    ensures
        exists|k: int| 0 <= k < n && es[k] == find_param(es, name, n)->Some_0,
    decreases n,
{
    if find_param(es, name, n - 1) is Some {
        lemma_find_param_in(es, name, n - 1);
    } else {
        assert(es[n - 1] == find_param(es, name, n)->Some_0);
    }
}


/// The verdict on binding the import `f` to whatever the donor's interface
/// functions `gs` offer under the same name.
pub open spec fn iface_fn_verdict(u1: Seq<TypeDefKind>, f: Function, u2: Seq<TypeDefKind>, gs: Seq<Function>) -> Result<(), LinkError> {
    match find_fn(gs, f.name@, gs.len() as int) {
        None => Err(LinkError::MissingExportFunction(f.name)),
        Some(g) => signature_verdict(u1, f, u2, g),
    }
}

/// The first function below `n` of the imported interface that cannot be bound.
pub open spec fn first_fn_failure(u1: Seq<TypeDefKind>, fs: Seq<Function>, u2: Seq<TypeDefKind>, gs: Seq<Function>, n: int) -> Option<int>
    decreases n,
{
    if n <= 0 {
        None
    } else {
        match first_fn_failure(u1, fs, u2, gs, n - 1) {
            Some(k) => Some(k),
            None => if iface_fn_verdict(u1, fs[n - 1], u2, gs) is Ok { None } else { Some(n - 1) },
        }
    }
}

/// The verdict on binding every function of the imported interface `imp` to
/// the same-named function of the exported interface `exp`: the error of the
/// first function, in declaration order, that cannot be bound.
pub open spec fn interface_verdict(u1: Seq<TypeDefKind>, imp: Interface, u2: Seq<TypeDefKind>, exp: Interface) -> Result<(), LinkError> {
    match first_fn_failure(u1, imp.functions@, u2, exp.functions@, imp.functions.len() as int) {
        None => Ok(()),
        Some(k) => iface_fn_verdict(u1, imp.functions@[k], u2, exp.functions@),
    }
}

proof fn lemma_first_fn_stable(u1: Seq<TypeDefKind>, fs: Seq<Function>, u2: Seq<TypeDefKind>, gs: Seq<Function>, m: int, n: int)
    requires
        0 <= m <= n,
        first_fn_failure(u1, fs, u2, gs, m) is Some,
    ensures
        first_fn_failure(u1, fs, u2, gs, n) == first_fn_failure(u1, fs, u2, gs, m),
    decreases n - m,
{
    if n > m {
        lemma_first_fn_stable(u1, fs, u2, gs, m, n - 1);
    }
}

proof fn lemma_find_fn_in(fs: Seq<Function>, name: Seq<char>, n: int)
    requires
        0 <= n <= fs.len(),
        find_fn(fs, name, n) is Some,
    ensures
        exists|k: int| 0 <= k < n && fs[k] == find_fn(fs, name, n)->Some_0,
    decreases n,
{
    if find_fn(fs, name, n - 1) is Some {
        lemma_find_fn_in(fs, name, n - 1);
    } else {
        assert(fs[n - 1] == find_fn(fs, name, n)->Some_0);
    }
}

/// Checks that every function of the imported interface `imp` (types in `u1`)
/// can be bound to the same-named function of the donor's exported interface
/// `exp` (types in `u2`).
#[verifier::loop_isolation(false)]
pub fn check_interface(u1: &Vec<TypeDefKind>, imp: &Interface, u2: &Vec<TypeDefKind>, exp: &Interface) -> (r: Result<(), LinkError>)
    requires
        table_wf(u1@),
        table_wf(u2@),
        forall|k: int| 0 <= k < imp.functions.len() ==> function_valid(#[trigger] imp.functions@[k], u1@.len() as nat),
        forall|k: int| 0 <= k < exp.functions.len() ==> function_valid(#[trigger] exp.functions@[k], u2@.len() as nat),
    ensures
        r == interface_verdict(u1@, *imp, u2@, *exp),
{
    let mut k: usize = 0;
    while k < imp.functions.len()
        invariant
            k <= imp.functions.len(),
            first_fn_failure(u1@, imp.functions@, u2@, exp.functions@, k as int) is None,
        decreases imp.functions.len() - k,
    {
        let f = &imp.functions[k];
        assert(function_valid(imp.functions@[k as int], u1@.len() as nat));
        let verdict = match find_function(&exp.functions, &f.name) {
            None => Err(LinkError::MissingExportFunction(f.name.clone())),
            Some(g) => {
                proof {
                    lemma_find_fn_in(exp.functions@, f.name@, exp.functions.len() as int);
                }
                check_signature(u1, f, u2, g)
            },
        };
        if verdict.is_err() {
            proof {
                lemma_first_fn_stable(u1@, imp.functions@, u2@, exp.functions@, k + 1, imp.functions.len() as int);
            }
            return verdict;
        }
        k = k + 1;
    }
    Ok(())
}


proof fn lemma_params_agree(u1: Seq<TypeDefKind>, p1: Seq<Param>, u2: Seq<TypeDefKind>, p2: Seq<Param>, n: int)
    requires
        forall|k: int| 0 <= k < n ==> types_eq(u1, #[trigger] p1[k].ty, u2, p2[k].ty),
    ensures
        first_param_mismatch(u1, p1, u2, p2, n) is None,
    decreases n,
{
    if n > 0 {
        lemma_params_agree(u1, p1, u2, p2, n - 1);
        assert(types_eq(u1, p1[n - 1].ty, u2, p2[n - 1].ty));
    }
}

/// Where the parameters agree in number and type, an import with named
/// results and an export with an anonymous one (or the reverse) are refused
/// with `ReturnKindMismatch`.
pub proof fn lemma_return_kind_mismatch(u1: Seq<TypeDefKind>, f: Function, u2: Seq<TypeDefKind>, g: Function)
    requires
        f.params.len() == g.params.len(),
        forall|k: int| 0 <= k < f.params.len() ==> types_eq(u1, #[trigger] f.params@[k].ty, u2, g.params@[k].ty),
        (f.results is Named) != (g.results is Named),
    ensures
        signature_verdict(u1, f, u2, g) == Err::<(), LinkError>(LinkError::ReturnKindMismatch { function: f.name }),
{
    lemma_params_agree(u1, f.params@, u2, g.params@, f.params.len() as int);
}


proof fn lemma_no_fn_failure(u1: Seq<TypeDefKind>, fs: Seq<Function>, u2: Seq<TypeDefKind>, gs: Seq<Function>, n: int)
    requires
        forall|k: int| 0 <= k < n ==> #[trigger] iface_fn_verdict(u1, fs[k], u2, gs) is Ok,
    ensures
        first_fn_failure(u1, fs, u2, gs, n) is None,
    decreases n,
{
    if n > 0 {
        lemma_no_fn_failure(u1, fs, u2, gs, n - 1);
        assert(iface_fn_verdict(u1, fs[n - 1], u2, gs) is Ok);
    }
}

/// Binding an interface refuses with `ReturnKindMismatch` at the first of its
/// functions whose result kind differs from the donor's same-named function
/// (their parameters agreeing), when every earlier function binds.
pub proof fn lemma_interface_return_kind_mismatch(u1: Seq<TypeDefKind>, imp: Interface, u2: Seq<TypeDefKind>, exp: Interface, m: int)
    requires
        0 <= m < imp.functions.len(),
        forall|k: int| 0 <= k < m ==> #[trigger] iface_fn_verdict(u1, imp.functions@[k], u2, exp.functions@) is Ok,
        find_fn(exp.functions@, imp.functions@[m].name@, exp.functions.len() as int) is Some,
        ({
            let f = imp.functions@[m];
            let g = find_fn(exp.functions@, f.name@, exp.functions.len() as int)->Some_0;
            &&& f.params.len() == g.params.len()
            &&& forall|k: int| 0 <= k < f.params.len() ==> types_eq(u1, #[trigger] f.params@[k].ty, u2, g.params@[k].ty)
            &&& (f.results is Named) != (g.results is Named)
        }),
    ensures
        interface_verdict(u1, imp, u2, exp) == Err::<(), LinkError>(
            LinkError::ReturnKindMismatch { function: imp.functions@[m].name },
        ),
{
    let f = imp.functions@[m];
    let g = find_fn(exp.functions@, f.name@, exp.functions.len() as int)->Some_0;
    lemma_return_kind_mismatch(u1, f, u2, g);
    lemma_no_fn_failure(u1, imp.functions@, u2, exp.functions@, m);
    assert(first_fn_failure(u1, imp.functions@, u2, exp.functions@, m + 1) == Some(m));
    lemma_first_fn_stable(u1, imp.functions@, u2, exp.functions@, m + 1, imp.functions.len() as int);
}


/// The first failure found is a function that cannot be bound, so an
/// interface whose verdict is `Ok` has no failing function.
pub proof fn lemma_first_fn_failure_fails(u1: Seq<TypeDefKind>, fs: Seq<Function>, u2: Seq<TypeDefKind>, gs: Seq<Function>, n: int)
    requires
        first_fn_failure(u1, fs, u2, gs, n) is Some,
    ensures
        iface_fn_verdict(u1, fs[first_fn_failure(u1, fs, u2, gs, n)->Some_0], u2, gs) is Err,
    decreases n,
{
    if first_fn_failure(u1, fs, u2, gs, n - 1) is Some {
        lemma_first_fn_failure_fails(u1, fs, u2, gs, n - 1);
    }
}

/// Where no function of the imported interface fails, each one binds.
pub proof fn lemma_each_fn_binds(u1: Seq<TypeDefKind>, fs: Seq<Function>, u2: Seq<TypeDefKind>, gs: Seq<Function>, n: int)
    requires
        first_fn_failure(u1, fs, u2, gs, n) is None,
    ensures
        forall|k: int| 0 <= k < n ==> #[trigger] iface_fn_verdict(u1, fs[k], u2, gs) is Ok,
    decreases n,
{
    if n > 0 {
        lemma_each_fn_binds(u1, fs, u2, gs, n - 1);
    }
}

} // verus!
