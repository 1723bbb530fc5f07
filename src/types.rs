//! Component-model types and their structural equivalence across two
//! metadata universes.
use vstd::prelude::*;

verus! {

/// A type as it appears in a signature: a primitive, or a reference into the
/// type table of the component that declares it.
#[derive(Clone, Copy, Debug, PartialEq, Eq, Structural)]
pub enum WitType {
    Bool,
    U8,
    U16,
    U32,
    U64,
    S8,
    S16,
    S32,
    S64,
    Float32,
    Float64,
    Char,
    Str,
    Id(usize),
}

/// A named field of a record.
#[derive(Clone, Debug, PartialEq, Eq)]
pub struct Field {
    pub name: String,
    pub ty: WitType,
}

/// A case of a variant, with an optional payload.
#[derive(Clone, Debug, PartialEq, Eq)]
pub struct Case {
    pub name: String,
    pub ty: Option<WitType>,
}

/// The definition that a type identifier resolves to.
#[derive(Clone, Debug, PartialEq, Eq)]
pub enum TypeDefKind {
    Record(Vec<Field>),
    /// A resource type, by name; values of it cross only as handles.
    Resource(String),
    Own(usize),
    Borrow(usize),
    Flags(Vec<String>),
    Tuple(Vec<WitType>),
    Variant(Vec<Case>),
    Enum(Vec<String>),
    OptionOf(WitType),
    ResultOf(Option<WitType>, Option<WitType>),
    List(WitType),
    Future(Option<WitType>),
    Stream(Option<WitType>, Option<WitType>),
    /// A transparent alias of another type.
    Alias(WitType),
}

/// Depth bound of a type: primitives are 0, the identifier `i` is `i + 1`.
pub open spec fn rank(t: WitType) -> nat {
    match t {
        WitType::Id(i) => i as nat + 1,
        _ => 0,
    }
}

pub open spec fn opt_rank(t: Option<WitType>) -> nat {
    match t {
        Some(t) => rank(t),
        None => 0,
    }
}

/// `t` refers only to identifiers below `n`.
pub open spec fn type_below(t: WitType, n: nat) -> bool {
    match t {
        WitType::Id(i) => i < n,
        _ => true,
    }
}

pub open spec fn opt_below(t: Option<WitType>, n: nat) -> bool {
    match t {
        Some(t) => type_below(t, n),
        None => true,
    }
}

/// Every type that the definition mentions refers only to identifiers below `n`.
pub open spec fn def_below(d: TypeDefKind, n: nat) -> bool {
    match d {
        TypeDefKind::Record(fs) => forall|k: int| 0 <= k < fs.len() ==> type_below(#[trigger] fs@[k].ty, n),
        TypeDefKind::Resource(_) => true,
        TypeDefKind::Own(r) => r < n,
        TypeDefKind::Borrow(r) => r < n,
        TypeDefKind::Flags(_) => true,
        TypeDefKind::Tuple(ts) => forall|k: int| 0 <= k < ts.len() ==> type_below(#[trigger] ts@[k], n),
        TypeDefKind::Variant(cs) => forall|k: int| 0 <= k < cs.len() ==> opt_below(#[trigger] cs@[k].ty, n),
        TypeDefKind::Enum(_) => true,
        TypeDefKind::OptionOf(t) => type_below(t, n),
        TypeDefKind::ResultOf(a, b) => opt_below(a, n) && opt_below(b, n),
        TypeDefKind::List(t) => type_below(t, n),
        TypeDefKind::Future(t) => opt_below(t, n),
        TypeDefKind::Stream(a, b) => opt_below(a, n) && opt_below(b, n),
        TypeDefKind::Alias(t) => type_below(t, n),
    }
}

/// A type table is well formed when each definition refers only to earlier
/// definitions, so that resolution always terminates.
pub open spec fn table_wf(u: Seq<TypeDefKind>) -> bool {
    forall|i: int| 0 <= i < u.len() ==> def_below(#[trigger] u[i], i as nat)
}

/// Structural equality of `t1` (resolved in `u1`) and `t2` (resolved in `u2`).
/// Transparent aliases are looked through on either side; an identifier that
/// resolves to a non-alias definition is never equal to a primitive.
pub open spec fn types_eq(u1: Seq<TypeDefKind>, t1: WitType, u2: Seq<TypeDefKind>, t2: WitType) -> bool
    decreases rank(t1) + rank(t2), 1nat
    when table_wf(u1) && table_wf(u2)
{
    if t1 is Id && t1->Id_0 < u1.len() && u1[t1->Id_0 as int] is Alias {
        types_eq(u1, u1[t1->Id_0 as int]->Alias_0, u2, t2)
    } else if t2 is Id && t2->Id_0 < u2.len() && u2[t2->Id_0 as int] is Alias {
        types_eq(u1, t1, u2, u2[t2->Id_0 as int]->Alias_0)
    } else {
        match (t1, t2) {
            (WitType::Id(i), WitType::Id(j)) => i < u1.len() && j < u2.len() && defs_eq(u1, i as int, u2, j as int),
            (WitType::Id(_), _) => false,
            (_, WitType::Id(_)) => false,
            _ => t1 == t2,
        }
    }
}

/// Two optional types are equal when both are absent, or both present and equal.
pub open spec fn opt_types_eq(u1: Seq<TypeDefKind>, t1: Option<WitType>, u2: Seq<TypeDefKind>, t2: Option<WitType>) -> bool
    decreases opt_rank(t1) + opt_rank(t2), 2nat
    when table_wf(u1) && table_wf(u2)
{
    match (t1, t2) {
        (None, None) => true,
        (Some(a), Some(b)) => types_eq(u1, a, u2, b),
        _ => false,
    }
}

/// Structural equality of definition `i` of `u1` and definition `j` of `u2`:
/// same kind, same names in declaration order, components pairwise equal.
pub open spec fn defs_eq(u1: Seq<TypeDefKind>, i: int, u2: Seq<TypeDefKind>, j: int) -> bool
    decreases i + j + 2, 0nat
    when table_wf(u1) && table_wf(u2) && 0 <= i < u1.len() && 0 <= j < u2.len()
{
    match (u1[i], u2[j]) {
        (TypeDefKind::Record(a), TypeDefKind::Record(b)) => a.len() == b.len() && forall|k: int| #![trigger a@[k]]
            0 <= k < a.len() ==> a@[k].name@ == b@[k].name@ && types_eq(u1, a@[k].ty, u2, b@[k].ty),
        (TypeDefKind::Resource(a), TypeDefKind::Resource(b)) => a@ == b@,
        (TypeDefKind::Own(a), TypeDefKind::Own(b)) => types_eq(u1, WitType::Id(a), u2, WitType::Id(b)),
        (TypeDefKind::Borrow(a), TypeDefKind::Borrow(b)) => types_eq(u1, WitType::Id(a), u2, WitType::Id(b)),
        (TypeDefKind::Flags(a), TypeDefKind::Flags(b)) => names_eq(a@, b@),
        (TypeDefKind::Tuple(a), TypeDefKind::Tuple(b)) => a.len() == b.len() && forall|k: int|
            0 <= k < a.len() ==> types_eq(u1, #[trigger] a@[k], u2, b@[k]),
        (TypeDefKind::Variant(a), TypeDefKind::Variant(b)) => a.len() == b.len() && forall|k: int| #![trigger a@[k]]
            0 <= k < a.len() ==> a@[k].name@ == b@[k].name@ && opt_types_eq(u1, a@[k].ty, u2, b@[k].ty),
        (TypeDefKind::Enum(a), TypeDefKind::Enum(b)) => names_eq(a@, b@),
        (TypeDefKind::OptionOf(a), TypeDefKind::OptionOf(b)) => types_eq(u1, a, u2, b),
        (TypeDefKind::ResultOf(a1, a2), TypeDefKind::ResultOf(b1, b2)) => opt_types_eq(u1, a1, u2, b1) && opt_types_eq(u1, a2, u2, b2),
        (TypeDefKind::List(a), TypeDefKind::List(b)) => types_eq(u1, a, u2, b),
        (TypeDefKind::Future(a), TypeDefKind::Future(b)) => opt_types_eq(u1, a, u2, b),
        (TypeDefKind::Stream(a1, a2), TypeDefKind::Stream(b1, b2)) => opt_types_eq(u1, a1, u2, b1) && opt_types_eq(u1, a2, u2, b2),
        _ => false,
    }
}

/// Two lists of names agree in length and pairwise, in order.
pub open spec fn names_eq(a: Seq<String>, b: Seq<String>) -> bool {
    a.len() == b.len() && forall|k: int| 0 <= k < a.len() ==> #[trigger] a[k]@ == b[k]@
}


/// A type that refers only to entries of a table of length `n`.
pub open spec fn type_valid(t: WitType, n: nat) -> bool {
    type_below(t, n)
}

/// Compares the names of two enums or flags sets, in order.
fn names_equal(a: &Vec<String>, b: &Vec<String>) -> (r: bool)
    ensures
        r == names_eq(a@, b@),
{
    if a.len() != b.len() {
        return false;
    }
    let mut k: usize = 0;
    while k < a.len()
        invariant
            k <= a.len(),
            a.len() == b.len(),
            forall|m: int| 0 <= m < k ==> #[trigger] a@[m]@ == b@[m]@,
        decreases a.len() - k,
    {
        if a[k] != b[k] {
            return false;
        }
        k = k + 1;
    }
    true
}

/// Structural equality of `t1` from the table `u1` and `t2` from the table `u2`.
pub fn types_equal(u1: &Vec<TypeDefKind>, t1: WitType, u2: &Vec<TypeDefKind>, t2: WitType) -> (r: bool)
    requires
        table_wf(u1@),
        table_wf(u2@),
        type_valid(t1, u1@.len() as nat),
        type_valid(t2, u2@.len() as nat),
    ensures
        r == types_eq(u1@, t1, u2@, t2),
    decreases rank(t1) + rank(t2), 1nat,
{
    if let WitType::Id(i) = t1 {
        proof {
            assert(def_below(u1@[i as int], i as nat));
        }
        if let TypeDefKind::Alias(a) = &u1[i] {
            return types_equal(u1, *a, u2, t2);
        }
    }
    if let WitType::Id(j) = t2 {
        proof {
            assert(def_below(u2@[j as int], j as nat));
        }
        if let TypeDefKind::Alias(b) = &u2[j] {
            return types_equal(u1, t1, u2, *b);
        }
    }
    match (t1, t2) {
        (WitType::Id(i), WitType::Id(j)) => type_defs_equal(u1, i, u2, j),
        (WitType::Id(_), _) => false,
        (_, WitType::Id(_)) => false,
        _ => t1 == t2,
    }
}

fn opt_types_equal(u1: &Vec<TypeDefKind>, t1: Option<WitType>, u2: &Vec<TypeDefKind>, t2: Option<WitType>) -> (r: bool)
    requires
        table_wf(u1@),
        table_wf(u2@),
        opt_below(t1, u1@.len() as nat),
        opt_below(t2, u2@.len() as nat),
    ensures
        r == opt_types_eq(u1@, t1, u2@, t2),
    decreases opt_rank(t1) + opt_rank(t2), 2nat,
{
    match (t1, t2) {
        (None, None) => true,
        (Some(a), Some(b)) => types_equal(u1, a, u2, b),
        _ => false,
    }
}

/// Structural equality of definition `i` of `u1` and definition `j` of `u2`.
#[verifier::loop_isolation(false)]
pub fn type_defs_equal(u1: &Vec<TypeDefKind>, i: usize, u2: &Vec<TypeDefKind>, j: usize) -> (r: bool)
    requires
        table_wf(u1@),
        table_wf(u2@),
        i < u1@.len(),
        j < u2@.len(),
    ensures
        r == defs_eq(u1@, i as int, u2@, j as int),
    decreases i + j + 2, 0nat,
{
    proof {
        assert(def_below(u1@[i as int], i as nat));
        assert(def_below(u2@[j as int], j as nat));
    }
    match (&u1[i], &u2[j]) {
        (TypeDefKind::Record(a), TypeDefKind::Record(b)) => {
            if a.len() != b.len() {
                return false;
            }
            let mut k: usize = 0;
            while k < a.len()
                invariant
                    k <= a.len(),
                    forall|m: int| #![trigger a@[m]] 0 <= m < k ==> a@[m].name@ == b@[m].name@ && types_eq(u1@, a@[m].ty, u2@, b@[m].ty),
                decreases a.len() - k,
            {
                if a[k].name != b[k].name {
                    return false;
                }
                assert(type_below(a@[k as int].ty, i as nat));
                assert(type_below(b@[k as int].ty, j as nat));
                let same = types_equal(u1, a[k].ty, u2, b[k].ty);
                if !same {
                    return false;
                }
                assert(a@[k as int].name@ == b@[k as int].name@ && types_eq(u1@, a@[k as int].ty, u2@, b@[k as int].ty));
                k = k + 1;
            }
            true
        },
        (TypeDefKind::Resource(a), TypeDefKind::Resource(b)) => *a == *b,
        (TypeDefKind::Own(a), TypeDefKind::Own(b)) => types_equal(u1, WitType::Id(*a), u2, WitType::Id(*b)),
        (TypeDefKind::Borrow(a), TypeDefKind::Borrow(b)) => types_equal(u1, WitType::Id(*a), u2, WitType::Id(*b)),
        (TypeDefKind::Flags(a), TypeDefKind::Flags(b)) => names_equal(a, b),
        (TypeDefKind::Tuple(a), TypeDefKind::Tuple(b)) => {
            if a.len() != b.len() {
                return false;
            }
            let mut k: usize = 0;
            while k < a.len()
                invariant
                    k <= a.len(),
                    forall|m: int| 0 <= m < k ==> types_eq(u1@, #[trigger] a@[m], u2@, b@[m]),
                decreases a.len() - k,
            {
                assert(type_below(a@[k as int], i as nat));
                assert(type_below(b@[k as int], j as nat));
                if !types_equal(u1, a[k], u2, b[k]) {
                    return false;
                }
                k = k + 1;
            }
            true
        },
        (TypeDefKind::Variant(a), TypeDefKind::Variant(b)) => {
            if a.len() != b.len() {
                return false;
            }
            let mut k: usize = 0;
            while k < a.len()
                invariant
                    k <= a.len(),
                    forall|m: int| #![trigger a@[m]] 0 <= m < k ==> a@[m].name@ == b@[m].name@ && opt_types_eq(u1@, a@[m].ty, u2@, b@[m].ty),
                decreases a.len() - k,
            {
                if a[k].name != b[k].name {
                    return false;
                }
                assert(opt_below(a@[k as int].ty, i as nat));
                assert(opt_below(b@[k as int].ty, j as nat));
                let same = opt_types_equal(u1, a[k].ty, u2, b[k].ty);
                if !same {
                    return false;
                }
                assert(a@[k as int].name@ == b@[k as int].name@ && opt_types_eq(u1@, a@[k as int].ty, u2@, b@[k as int].ty));
                k = k + 1;
            }
            true
        },
        (TypeDefKind::Enum(a), TypeDefKind::Enum(b)) => names_equal(a, b),
        (TypeDefKind::OptionOf(a), TypeDefKind::OptionOf(b)) => types_equal(u1, *a, u2, *b),
        (TypeDefKind::ResultOf(a1, a2), TypeDefKind::ResultOf(b1, b2)) => {
            opt_types_equal(u1, *a1, u2, *b1) && opt_types_equal(u1, *a2, u2, *b2)
        },
        (TypeDefKind::List(a), TypeDefKind::List(b)) => types_equal(u1, *a, u2, *b),
        (TypeDefKind::Future(a), TypeDefKind::Future(b)) => opt_types_equal(u1, *a, u2, *b),
        (TypeDefKind::Stream(a1, a2), TypeDefKind::Stream(b1, b2)) => {
            opt_types_equal(u1, *a1, u2, *b1) && opt_types_equal(u1, *a2, u2, *b2)
        },
        _ => false,
    }
}


fn type_below_exec(t: WitType, n: usize) -> (r: bool)
    ensures
        r == type_below(t, n as nat),
{
    match t {
        WitType::Id(i) => i < n,
        _ => true,
    }
}

fn opt_below_exec(t: Option<WitType>, n: usize) -> (r: bool)
    ensures
        r == opt_below(t, n as nat),
{
    match t {
        Some(t) => type_below_exec(t, n),
        None => true,
    }
}

#[verifier::loop_isolation(false)]
fn def_below_exec(d: &TypeDefKind, n: usize) -> (r: bool)
    ensures
        r == def_below(*d, n as nat),
{
    match d {
        TypeDefKind::Record(fs) => {
            let mut k: usize = 0;
            while k < fs.len()
                invariant
                    k <= fs.len(),
                    forall|m: int| 0 <= m < k ==> type_below(#[trigger] fs@[m].ty, n as nat),
                decreases fs.len() - k,
            {
                if !type_below_exec(fs[k].ty, n) {
                    assert(!type_below(fs@[k as int].ty, n as nat));
                    return false;
                }
                k = k + 1;
            }
            true
        },
        TypeDefKind::Tuple(ts) => {
            let mut k: usize = 0;
            while k < ts.len()
                invariant
                    k <= ts.len(),
                    forall|m: int| 0 <= m < k ==> type_below(#[trigger] ts@[m], n as nat),
                decreases ts.len() - k,
            {
                if !type_below_exec(ts[k], n) {
                    assert(!type_below(ts@[k as int], n as nat));
                    return false;
                }
                k = k + 1;
            }
            true
        },
        TypeDefKind::Variant(cs) => {
            let mut k: usize = 0;
            while k < cs.len()
                invariant
                    k <= cs.len(),
                    forall|m: int| 0 <= m < k ==> opt_below(#[trigger] cs@[m].ty, n as nat),
                decreases cs.len() - k,
            {
                if !opt_below_exec(cs[k].ty, n) {
                    assert(!opt_below(cs@[k as int].ty, n as nat));
                    return false;
                }
                k = k + 1;
            }
            true
        },
        TypeDefKind::Resource(_) => true,
        TypeDefKind::Own(r) => *r < n,
        TypeDefKind::Borrow(r) => *r < n,
        TypeDefKind::Flags(_) => true,
        TypeDefKind::Enum(_) => true,
        TypeDefKind::OptionOf(t) => type_below_exec(*t, n),
        TypeDefKind::ResultOf(a, b) => opt_below_exec(*a, n) && opt_below_exec(*b, n),
        TypeDefKind::List(t) => type_below_exec(*t, n),
        TypeDefKind::Future(t) => opt_below_exec(*t, n),
        TypeDefKind::Stream(a, b) => opt_below_exec(*a, n) && opt_below_exec(*b, n),
        TypeDefKind::Alias(t) => type_below_exec(*t, n),
    }
}

/// Whether each definition of `u` refers only to earlier definitions.
pub fn table_well_formed(u: &Vec<TypeDefKind>) -> (r: bool)
    ensures
        r == table_wf(u@),
{
    let mut i: usize = 0;
    while i < u.len()
        invariant
            i <= u.len(),
            forall|m: int| 0 <= m < i ==> def_below(#[trigger] u@[m], m as nat),
        decreases u.len() - i,
    {
        if !def_below_exec(&u[i], i) {
            return false;
        }
        i = i + 1;
    }
    true
}

/// Whether `t` refers only to entries of a table of length `n`.
pub fn type_in_table(t: WitType, n: usize) -> (r: bool)
    ensures
        r == type_valid(t, n as nat),
{
    type_below_exec(t, n)
}

/// `t` is an identifier whose definition is a transparent alias.
pub open spec fn is_alias(u: Seq<TypeDefKind>, t: WitType) -> bool {
    t is Id && t->Id_0 < u.len() && u[t->Id_0 as int] is Alias
}

/// Introducing a transparent alias on the left does not change equality.
pub proof fn lemma_alias_left(u1: Seq<TypeDefKind>, i: usize, u2: Seq<TypeDefKind>, t2: WitType)
    requires
        table_wf(u1),
        table_wf(u2),
        i < u1.len(),
        u1[i as int] is Alias,
    ensures
        types_eq(u1, WitType::Id(i), u2, t2) == types_eq(u1, u1[i as int]->Alias_0, u2, t2),
{
}

/// Introducing a transparent alias on the right does not change equality.
pub proof fn lemma_alias_right(u1: Seq<TypeDefKind>, t1: WitType, u2: Seq<TypeDefKind>, j: usize)
    requires
        table_wf(u1),
        table_wf(u2),
        j < u2.len(),
        u2[j as int] is Alias,
    ensures
        types_eq(u1, t1, u2, WitType::Id(j)) == types_eq(u1, t1, u2, u2[j as int]->Alias_0),
    decreases rank(t1),
{
    assert(def_below(u2[j as int], j as nat));
    if is_alias(u1, t1) {
        let a1 = u1[t1->Id_0 as int]->Alias_0;
        assert(def_below(u1[t1->Id_0 as int], t1->Id_0 as nat));
        lemma_alias_right(u1, a1, u2, j);
    }
}

/// Structural equality is reflexive on every type of a well-formed table.
pub proof fn lemma_types_eq_reflexive(u: Seq<TypeDefKind>, t: WitType)
    requires
        table_wf(u),
        type_valid(t, u.len()),
    ensures
        types_eq(u, t, u, t),
    decreases rank(t), 1nat,
{
    if is_alias(u, t) {
        let i = t->Id_0;
        let a = u[i as int]->Alias_0;
        assert(def_below(u[i as int], i as nat));
        lemma_types_eq_reflexive(u, a);
        lemma_alias_right(u, a, u, i);
    } else if t is Id {
        lemma_defs_eq_reflexive(u, t->Id_0 as int);
    }
}

proof fn lemma_opt_eq_reflexive(u: Seq<TypeDefKind>, t: Option<WitType>, n: int)
    requires
        table_wf(u),
        0 <= n <= u.len(),
        opt_below(t, n as nat),
    ensures
        opt_types_eq(u, t, u, t),
    decreases n, 2nat,
{
    if let Some(x) = t {
        lemma_types_eq_reflexive(u, x);
    }
}

proof fn lemma_defs_eq_reflexive(u: Seq<TypeDefKind>, i: int)
    requires
        table_wf(u),
        0 <= i < u.len(),
        !(u[i] is Alias),
    ensures
        defs_eq(u, i, u, i),
    decreases i + 1, 0nat,
{
    assert(def_below(u[i], i as nat));
    match u[i] {
        TypeDefKind::Record(a) => {
            assert forall|k: int| #![trigger a@[k]] 0 <= k < a.len() implies a@[k].name@ == a@[k].name@ && types_eq(u, a@[k].ty, u, a@[k].ty) by {
                lemma_types_eq_reflexive(u, a@[k].ty);
            }
        },
        TypeDefKind::Own(r) => lemma_types_eq_reflexive(u, WitType::Id(r)),
        TypeDefKind::Borrow(r) => lemma_types_eq_reflexive(u, WitType::Id(r)),
        TypeDefKind::Tuple(a) => {
            assert forall|k: int| 0 <= k < a.len() implies types_eq(u, #[trigger] a@[k], u, a@[k]) by {
                lemma_types_eq_reflexive(u, a@[k]);
            }
        },
        TypeDefKind::Variant(a) => {
            assert forall|k: int| #![trigger a@[k]] 0 <= k < a.len() implies a@[k].name@ == a@[k].name@ && opt_types_eq(u, a@[k].ty, u, a@[k].ty) by {
                lemma_opt_eq_reflexive(u, a@[k].ty, i);
            }
        },
        TypeDefKind::OptionOf(t) => lemma_types_eq_reflexive(u, t),
        TypeDefKind::ResultOf(a, b) => {
            lemma_opt_eq_reflexive(u, a, i);
            lemma_opt_eq_reflexive(u, b, i);
        },
        TypeDefKind::List(t) => lemma_types_eq_reflexive(u, t),
        TypeDefKind::Future(t) => lemma_opt_eq_reflexive(u, t, i),
        TypeDefKind::Stream(a, b) => {
            lemma_opt_eq_reflexive(u, a, i);
            lemma_opt_eq_reflexive(u, b, i);
        },
        _ => {},
    }
}


/// Structural equality is symmetric.
pub proof fn lemma_types_eq_symmetric(u1: Seq<TypeDefKind>, t1: WitType, u2: Seq<TypeDefKind>, t2: WitType)
    requires
        table_wf(u1),
        table_wf(u2),
        type_valid(t1, u1.len()),
        type_valid(t2, u2.len()),
    ensures
        types_eq(u1, t1, u2, t2) == types_eq(u2, t2, u1, t1),
    decreases rank(t1) + rank(t2), 1nat,
{
    if is_alias(u1, t1) {
        let i = t1->Id_0;
        let a1 = u1[i as int]->Alias_0;
        assert(def_below(u1[i as int], i as nat));
        lemma_types_eq_symmetric(u1, a1, u2, t2);
        lemma_alias_right(u2, t2, u1, i);
    } else if is_alias(u2, t2) {
        let j = t2->Id_0;
        let a2 = u2[j as int]->Alias_0;
        assert(def_below(u2[j as int], j as nat));
        lemma_types_eq_symmetric(u1, t1, u2, a2);
    } else if t1 is Id && t2 is Id {
        lemma_defs_eq_symmetric(u1, t1->Id_0 as int, u2, t2->Id_0 as int);
    }
}

proof fn lemma_opt_eq_symmetric(u1: Seq<TypeDefKind>, t1: Option<WitType>, u2: Seq<TypeDefKind>, t2: Option<WitType>, n: int)
    requires
        table_wf(u1),
        table_wf(u2),
        opt_below(t1, u1.len()),
        opt_below(t2, u2.len()),
        opt_rank(t1) + opt_rank(t2) <= n,
    ensures
        opt_types_eq(u1, t1, u2, t2) == opt_types_eq(u2, t2, u1, t1),
    decreases n, 2nat,
{
    if t1 is Some && t2 is Some {
        lemma_types_eq_symmetric(u1, t1->Some_0, u2, t2->Some_0);
    }
}

proof fn lemma_defs_eq_symmetric(u1: Seq<TypeDefKind>, i: int, u2: Seq<TypeDefKind>, j: int)
    requires
        table_wf(u1),
        table_wf(u2),
        0 <= i < u1.len(),
        0 <= j < u2.len(),
    ensures
        defs_eq(u1, i, u2, j) == defs_eq(u2, j, u1, i),
    decreases i + j + 2, 0nat,
{
    assert(def_below(u1[i], i as nat));
    assert(def_below(u2[j], j as nat));
    match (u1[i], u2[j]) {
        (TypeDefKind::Record(a), TypeDefKind::Record(b)) => {
            assert forall|k: int| #![trigger a@[k]] 0 <= k < a.len() && k < b.len() implies
                types_eq(u1, a@[k].ty, u2, b@[k].ty) == types_eq(u2, b@[k].ty, u1, a@[k].ty) by {
                assert(type_below(b@[k].ty, j as nat));
                lemma_types_eq_symmetric(u1, a@[k].ty, u2, b@[k].ty);
            }
        },
        (TypeDefKind::Own(a), TypeDefKind::Own(b)) => lemma_types_eq_symmetric(u1, WitType::Id(a), u2, WitType::Id(b)),
        (TypeDefKind::Borrow(a), TypeDefKind::Borrow(b)) => lemma_types_eq_symmetric(u1, WitType::Id(a), u2, WitType::Id(b)),
        (TypeDefKind::Tuple(a), TypeDefKind::Tuple(b)) => {
            assert forall|k: int| #![trigger a@[k]] 0 <= k < a.len() && k < b.len() implies
                types_eq(u1, a@[k], u2, b@[k]) == types_eq(u2, b@[k], u1, a@[k]) by {
                assert(type_below(b@[k], j as nat));
                lemma_types_eq_symmetric(u1, a@[k], u2, b@[k]);
            }
        },
        (TypeDefKind::Variant(a), TypeDefKind::Variant(b)) => {
            assert forall|k: int| #![trigger a@[k]] 0 <= k < a.len() && k < b.len() implies
                opt_types_eq(u1, a@[k].ty, u2, b@[k].ty) == opt_types_eq(u2, b@[k].ty, u1, a@[k].ty) by {
                assert(opt_below(b@[k].ty, j as nat));
                lemma_opt_eq_symmetric(u1, a@[k].ty, u2, b@[k].ty, i + j);
            }
        },
        (TypeDefKind::OptionOf(a), TypeDefKind::OptionOf(b)) => lemma_types_eq_symmetric(u1, a, u2, b),
        (TypeDefKind::ResultOf(a1, a2), TypeDefKind::ResultOf(b1, b2)) => {
            lemma_opt_eq_symmetric(u1, a1, u2, b1, i + j);
            lemma_opt_eq_symmetric(u1, a2, u2, b2, i + j);
        },
        (TypeDefKind::List(a), TypeDefKind::List(b)) => lemma_types_eq_symmetric(u1, a, u2, b),
        (TypeDefKind::Future(a), TypeDefKind::Future(b)) => lemma_opt_eq_symmetric(u1, a, u2, b, i + j),
        (TypeDefKind::Stream(a1, a2), TypeDefKind::Stream(b1, b2)) => {
            lemma_opt_eq_symmetric(u1, a1, u2, b1, i + j);
            lemma_opt_eq_symmetric(u1, a2, u2, b2, i + j);
        },
        _ => {},
    }
}


/// The two definitions differ at their top level: in kind, in the number of
/// their members, or in the name of a member at some position.
pub open spec fn shape_differs(d1: TypeDefKind, d2: TypeDefKind) -> bool {
    match (d1, d2) {
        (TypeDefKind::Alias(_), _) => false,
        (_, TypeDefKind::Alias(_)) => false,
        (TypeDefKind::Record(a), TypeDefKind::Record(b)) => a.len() != b.len() || exists|k: int|
            0 <= k < a.len() && k < b.len() && #[trigger] a@[k].name@ != b@[k].name@,
        (TypeDefKind::Variant(a), TypeDefKind::Variant(b)) => a.len() != b.len() || exists|k: int|
            0 <= k < a.len() && k < b.len() && #[trigger] a@[k].name@ != b@[k].name@,
        (TypeDefKind::Enum(a), TypeDefKind::Enum(b)) => !names_eq(a@, b@),
        (TypeDefKind::Flags(a), TypeDefKind::Flags(b)) => !names_eq(a@, b@),
        (TypeDefKind::Tuple(a), TypeDefKind::Tuple(b)) => a.len() != b.len(),
        (TypeDefKind::Resource(a), TypeDefKind::Resource(b)) => a@ != b@,
        (TypeDefKind::Own(_), TypeDefKind::Own(_)) => false,
        (TypeDefKind::Borrow(_), TypeDefKind::Borrow(_)) => false,
        (TypeDefKind::OptionOf(_), TypeDefKind::OptionOf(_)) => false,
        (TypeDefKind::ResultOf(_, _), TypeDefKind::ResultOf(_, _)) => false,
        (TypeDefKind::List(_), TypeDefKind::List(_)) => false,
        (TypeDefKind::Future(_), TypeDefKind::Future(_)) => false,
        (TypeDefKind::Stream(_, _), TypeDefKind::Stream(_, _)) => false,
        _ => true,
    }
}

/// Types whose definitions differ in kind, in arity, or in a case or field
/// name are unequal.
pub proof fn lemma_shape_mismatch_unequal(u1: Seq<TypeDefKind>, i: usize, u2: Seq<TypeDefKind>, j: usize)
    requires
        table_wf(u1),
        table_wf(u2),
        i < u1.len(),
        j < u2.len(),
        shape_differs(u1[i as int], u2[j as int]),
    ensures
        !types_eq(u1, WitType::Id(i), u2, WitType::Id(j)),
{
    match (u1[i as int], u2[j as int]) {
        (TypeDefKind::Record(a), TypeDefKind::Record(b)) => {
            if a.len() == b.len() {
                let k = choose|k: int| 0 <= k < a.len() && k < b.len() && #[trigger] a@[k].name@ != b@[k].name@;
                assert(a@[k].name@ != b@[k].name@);
            }
        },
        (TypeDefKind::Variant(a), TypeDefKind::Variant(b)) => {
            if a.len() == b.len() {
                let k = choose|k: int| 0 <= k < a.len() && k < b.len() && #[trigger] a@[k].name@ != b@[k].name@;
                assert(a@[k].name@ != b@[k].name@);
            }
        },
        _ => {},
    }
    assert(!defs_eq(u1, i as int, u2, j as int));
}


/// `big` starts with the definitions of `small`.
pub open spec fn extends(big: Seq<TypeDefKind>, small: Seq<TypeDefKind>) -> bool {
    small.len() <= big.len() && forall|i: int| 0 <= i < small.len() ==> #[trigger] big[i] == small[i]
}

/// Adding definitions to the end of the tables does not change the equality
/// of types that refer only to the earlier ones.
pub proof fn lemma_types_eq_extend(
    u1: Seq<TypeDefKind>,
    v1: Seq<TypeDefKind>,
    t1: WitType,
    u2: Seq<TypeDefKind>,
    v2: Seq<TypeDefKind>,
    t2: WitType,
)
    requires
        table_wf(u1),
        table_wf(v1),
        table_wf(u2),
        table_wf(v2),
        extends(v1, u1),
        extends(v2, u2),
        type_valid(t1, u1.len()),
        type_valid(t2, u2.len()),
    ensures
        types_eq(v1, t1, v2, t2) == types_eq(u1, t1, u2, t2),
    decreases rank(t1) + rank(t2), 1nat,
{
    if t1 is Id {
        assert(v1[t1->Id_0 as int] == u1[t1->Id_0 as int]);
        assert(def_below(u1[t1->Id_0 as int], t1->Id_0 as nat));
    }
    if t2 is Id {
        assert(v2[t2->Id_0 as int] == u2[t2->Id_0 as int]);
        assert(def_below(u2[t2->Id_0 as int], t2->Id_0 as nat));
    }
    if is_alias(u1, t1) {
        lemma_types_eq_extend(u1, v1, u1[t1->Id_0 as int]->Alias_0, u2, v2, t2);
    } else if is_alias(u2, t2) {
        lemma_types_eq_extend(u1, v1, t1, u2, v2, u2[t2->Id_0 as int]->Alias_0);
    } else if t1 is Id && t2 is Id {
        lemma_defs_eq_extend(u1, v1, t1->Id_0 as int, u2, v2, t2->Id_0 as int);
    }
}

proof fn lemma_opt_eq_extend(
    u1: Seq<TypeDefKind>,
    v1: Seq<TypeDefKind>,
    t1: Option<WitType>,
    u2: Seq<TypeDefKind>,
    v2: Seq<TypeDefKind>,
    t2: Option<WitType>,
    n: int,
)
    requires
        table_wf(u1),
        table_wf(v1),
        table_wf(u2),
        table_wf(v2),
        extends(v1, u1),
        extends(v2, u2),
        opt_below(t1, u1.len()),
        opt_below(t2, u2.len()),
        opt_rank(t1) + opt_rank(t2) <= n,
    ensures
        opt_types_eq(v1, t1, v2, t2) == opt_types_eq(u1, t1, u2, t2),
    decreases n, 2nat,
{
    if t1 is Some && t2 is Some {
        lemma_types_eq_extend(u1, v1, t1->Some_0, u2, v2, t2->Some_0);
    }
}

proof fn lemma_defs_eq_extend(
    u1: Seq<TypeDefKind>,
    v1: Seq<TypeDefKind>,
    i: int,
    u2: Seq<TypeDefKind>,
    v2: Seq<TypeDefKind>,
    j: int,
)
    requires
        table_wf(u1),
        table_wf(v1),
        table_wf(u2),
        table_wf(v2),
        extends(v1, u1),
        extends(v2, u2),
        0 <= i < u1.len(),
        0 <= j < u2.len(),
    ensures
        defs_eq(v1, i, v2, j) == defs_eq(u1, i, u2, j),
    decreases i + j + 2, 0nat,
{
    assert(v1[i] == u1[i]);
    assert(v2[j] == u2[j]);
    assert(def_below(u1[i], i as nat));
    assert(def_below(u2[j], j as nat));
    match (u1[i], u2[j]) {
        (TypeDefKind::Record(a), TypeDefKind::Record(b)) => {
            assert forall|k: int| #![trigger a@[k]] 0 <= k < a.len() && k < b.len() implies
                types_eq(v1, a@[k].ty, v2, b@[k].ty) == types_eq(u1, a@[k].ty, u2, b@[k].ty) by {
                assert(type_below(a@[k].ty, i as nat));
                assert(type_below(b@[k].ty, j as nat));
                lemma_types_eq_extend(u1, v1, a@[k].ty, u2, v2, b@[k].ty);
            }
        },
        (TypeDefKind::Own(a), TypeDefKind::Own(b)) => lemma_types_eq_extend(u1, v1, WitType::Id(a), u2, v2, WitType::Id(b)),
        (TypeDefKind::Borrow(a), TypeDefKind::Borrow(b)) => lemma_types_eq_extend(u1, v1, WitType::Id(a), u2, v2, WitType::Id(b)),
        (TypeDefKind::Tuple(a), TypeDefKind::Tuple(b)) => {
            assert forall|k: int| #![trigger a@[k]] 0 <= k < a.len() && k < b.len() implies
                types_eq(v1, a@[k], v2, b@[k]) == types_eq(u1, a@[k], u2, b@[k]) by {
                assert(type_below(a@[k], i as nat));
                assert(type_below(b@[k], j as nat));
                lemma_types_eq_extend(u1, v1, a@[k], u2, v2, b@[k]);
            }
        },
        (TypeDefKind::Variant(a), TypeDefKind::Variant(b)) => {
            assert forall|k: int| #![trigger a@[k]] 0 <= k < a.len() && k < b.len() implies
                opt_types_eq(v1, a@[k].ty, v2, b@[k].ty) == opt_types_eq(u1, a@[k].ty, u2, b@[k].ty) by {
                assert(opt_below(a@[k].ty, i as nat));
                assert(opt_below(b@[k].ty, j as nat));
                lemma_opt_eq_extend(u1, v1, a@[k].ty, u2, v2, b@[k].ty, i + j);
            }
        },
        (TypeDefKind::OptionOf(a), TypeDefKind::OptionOf(b)) => lemma_types_eq_extend(u1, v1, a, u2, v2, b),
        (TypeDefKind::ResultOf(a1, a2), TypeDefKind::ResultOf(b1, b2)) => {
            lemma_opt_eq_extend(u1, v1, a1, u2, v2, b1, i + j);
            lemma_opt_eq_extend(u1, v1, a2, u2, v2, b2, i + j);
        },
        (TypeDefKind::List(a), TypeDefKind::List(b)) => lemma_types_eq_extend(u1, v1, a, u2, v2, b),
        (TypeDefKind::Future(a), TypeDefKind::Future(b)) => lemma_opt_eq_extend(u1, v1, a, u2, v2, b, i + j),
        (TypeDefKind::Stream(a1, a2), TypeDefKind::Stream(b1, b2)) => {
            lemma_opt_eq_extend(u1, v1, a1, u2, v2, b1, i + j);
            lemma_opt_eq_extend(u1, v1, a2, u2, v2, b2, i + j);
        },
        _ => {},
    }
}

proof fn lemma_push_alias_wf(u: Seq<TypeDefKind>, t: WitType)
    requires
        table_wf(u),
        type_valid(t, u.len()),
    ensures
        table_wf(u.push(TypeDefKind::Alias(t))),
        extends(u.push(TypeDefKind::Alias(t)), u),
{
    let v = u.push(TypeDefKind::Alias(t));
    assert forall|i: int| 0 <= i < v.len() implies def_below(#[trigger] v[i], i as nat) by {
        if i < u.len() {
            assert(v[i] == u[i]);
        }
    }
}

/// A transparent alias `a = t1` added as a new definition of the left table
/// compares like `t1` against any type of the right table.
pub proof fn lemma_new_alias_left(u1: Seq<TypeDefKind>, t1: WitType, u2: Seq<TypeDefKind>, t2: WitType)
    requires
        table_wf(u1),
        table_wf(u2),
        type_valid(t1, u1.len()),
        type_valid(t2, u2.len()),
        u1.len() < usize::MAX,
    ensures
        types_eq(u1.push(TypeDefKind::Alias(t1)), WitType::Id(u1.len() as usize), u2, t2) == types_eq(u1, t1, u2, t2),
{
    let v1 = u1.push(TypeDefKind::Alias(t1));
    lemma_push_alias_wf(u1, t1);
    assert(extends(u2, u2));
    lemma_alias_left(v1, u1.len() as usize, u2, t2);
    lemma_types_eq_extend(u1, v1, t1, u2, u2, t2);
}

/// A transparent alias `b = t2` added as a new definition of the right table
/// compares like `t2` against any type of the left table.
pub proof fn lemma_new_alias_right(u1: Seq<TypeDefKind>, t1: WitType, u2: Seq<TypeDefKind>, t2: WitType)
    requires
        table_wf(u1),
        table_wf(u2),
        type_valid(t1, u1.len()),
        type_valid(t2, u2.len()),
        u2.len() < usize::MAX,
    ensures
        types_eq(u1, t1, u2.push(TypeDefKind::Alias(t2)), WitType::Id(u2.len() as usize)) == types_eq(u1, t1, u2, t2),
{
    let v2 = u2.push(TypeDefKind::Alias(t2));
    lemma_push_alias_wf(u2, t2);
    assert(extends(u1, u1));
    lemma_alias_right(u1, t1, v2, u2.len() as usize);
    lemma_types_eq_extend(u1, u1, t1, u2, v2, t2);
}


/// The type at position `k` among the members of a definition, where one
/// stands: a field, a tuple element, a case payload, the element of a list or
/// option, the ok (0) or error (1) type of a result, or a handle's resource.
pub open spec fn member(d: TypeDefKind, k: int) -> Option<WitType> {
    match d {
        TypeDefKind::Record(fs) => if 0 <= k < fs.len() { Some(fs@[k].ty) } else { None },
        TypeDefKind::Tuple(ts) => if 0 <= k < ts.len() { Some(ts@[k]) } else { None },
        TypeDefKind::Variant(cs) => if 0 <= k < cs.len() { cs@[k].ty } else { None },
        TypeDefKind::Own(r) => if k == 0 { Some(WitType::Id(r)) } else { None },
        TypeDefKind::Borrow(r) => if k == 0 { Some(WitType::Id(r)) } else { None },
        TypeDefKind::OptionOf(t) => if k == 0 { Some(t) } else { None },
        TypeDefKind::List(t) => if k == 0 { Some(t) } else { None },
        TypeDefKind::ResultOf(a, b) => if k == 0 { a } else if k == 1 { b } else { None },
        TypeDefKind::Future(t) => if k == 0 { t } else { None },
        TypeDefKind::Stream(a, b) => if k == 0 { a } else if k == 1 { b } else { None },
        _ => None,
    }
}

/// The two definitions are of the same kind.
pub open spec fn same_kind(d1: TypeDefKind, d2: TypeDefKind) -> bool {
    match (d1, d2) {
        (TypeDefKind::Record(_), TypeDefKind::Record(_)) => true,
        (TypeDefKind::Tuple(_), TypeDefKind::Tuple(_)) => true,
        (TypeDefKind::Variant(_), TypeDefKind::Variant(_)) => true,
        (TypeDefKind::Own(_), TypeDefKind::Own(_)) => true,
        (TypeDefKind::Borrow(_), TypeDefKind::Borrow(_)) => true,
        (TypeDefKind::OptionOf(_), TypeDefKind::OptionOf(_)) => true,
        (TypeDefKind::List(_), TypeDefKind::List(_)) => true,
        (TypeDefKind::ResultOf(_, _), TypeDefKind::ResultOf(_, _)) => true,
        (TypeDefKind::Future(_), TypeDefKind::Future(_)) => true,
        (TypeDefKind::Stream(_, _), TypeDefKind::Stream(_, _)) => true,
        _ => false,
    }
}

/// Inequality propagates outwards: two definitions of one kind whose members
/// at some position are unequal types are unequal. Together with
/// `lemma_shape_mismatch_unequal`, a differing name or count at any depth
/// makes the enclosing types unequal.
pub proof fn lemma_member_mismatch_unequal(u1: Seq<TypeDefKind>, i: usize, u2: Seq<TypeDefKind>, j: usize, k: int)
    requires
        table_wf(u1),
        table_wf(u2),
        i < u1.len(),
        j < u2.len(),
        same_kind(u1[i as int], u2[j as int]),
        member(u1[i as int], k) is Some,
        member(u2[j as int], k) is Some,
        !types_eq(u1, member(u1[i as int], k)->Some_0, u2, member(u2[j as int], k)->Some_0),
    ensures
        !types_eq(u1, WitType::Id(i), u2, WitType::Id(j)),
{
    match (u1[i as int], u2[j as int]) {
        (TypeDefKind::Record(a), TypeDefKind::Record(b)) => {
            assert(a@[k].name@ == b@[k].name@ ==> !types_eq(u1, a@[k].ty, u2, b@[k].ty));
        },
        (TypeDefKind::Tuple(a), TypeDefKind::Tuple(b)) => {
            assert(!types_eq(u1, a@[k], u2, b@[k]));
        },
        (TypeDefKind::Variant(a), TypeDefKind::Variant(b)) => {
            assert(!opt_types_eq(u1, a@[k].ty, u2, b@[k].ty));
        },
        (TypeDefKind::ResultOf(a1, a2), TypeDefKind::ResultOf(b1, b2)) => {
            assert(k == 0 ==> !opt_types_eq(u1, a1, u2, b1));
            assert(k == 1 ==> !opt_types_eq(u1, a2, u2, b2));
        },
        (TypeDefKind::Future(a), TypeDefKind::Future(b)) => {
            assert(!opt_types_eq(u1, a, u2, b));
        },
        (TypeDefKind::Stream(a1, a2), TypeDefKind::Stream(b1, b2)) => {
            assert(k == 0 ==> !opt_types_eq(u1, a1, u2, b1));
            assert(k == 1 ==> !opt_types_eq(u1, a2, u2, b2));
        },
        _ => {},
    }
    assert(!defs_eq(u1, i as int, u2, j as int));
}


/// `t` is an identifier of `u` whose definition is not an alias.
pub open spec fn is_plain_def(u: Seq<TypeDefKind>, t: WitType) -> bool {
    t is Id && t->Id_0 < u.len() && !(u[t->Id_0 as int] is Alias)
}

/// Following the member positions of `path` down from `t1` and `t2`, both
/// sides pass through definitions of one kind and end at definitions that
/// differ in kind, in the number of their members, or in a member's name.
pub open spec fn nested_mismatch(u1: Seq<TypeDefKind>, t1: WitType, u2: Seq<TypeDefKind>, t2: WitType, path: Seq<int>) -> bool
    decreases path.len(),
{
    if !is_plain_def(u1, t1) || !is_plain_def(u2, t2) {
        false
    } else if path.len() == 0 {
        shape_differs(u1[t1->Id_0 as int], u2[t2->Id_0 as int])
    } else {
        let d1 = u1[t1->Id_0 as int];
        let d2 = u2[t2->Id_0 as int];
        &&& same_kind(d1, d2)
        &&& member(d1, path[0]) is Some
        &&& member(d2, path[0]) is Some
        &&& nested_mismatch(u1, member(d1, path[0])->Some_0, u2, member(d2, path[0])->Some_0, path.drop_first())
    }
}

/// A difference in kind, count or name at any depth makes the enclosing
/// types unequal.
pub proof fn lemma_nested_mismatch_unequal(u1: Seq<TypeDefKind>, t1: WitType, u2: Seq<TypeDefKind>, t2: WitType, path: Seq<int>)
    requires
        table_wf(u1),
        table_wf(u2),
        nested_mismatch(u1, t1, u2, t2, path),
    ensures
        !types_eq(u1, t1, u2, t2),
    decreases path.len(),
{
    let i = t1->Id_0;
    let j = t2->Id_0;
    if path.len() == 0 {
        lemma_shape_mismatch_unequal(u1, i, u2, j);
    } else {
        let d1 = u1[i as int];
        let d2 = u2[j as int];
        lemma_nested_mismatch_unequal(u1, member(d1, path[0])->Some_0, u2, member(d2, path[0])->Some_0, path.drop_first());
        lemma_member_mismatch_unequal(u1, i, u2, j, path[0]);
    }
}

} // verus!
