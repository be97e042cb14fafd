//! Building a validated schema from the declared variants.
use crate::generator::{Disc, Explicit, Generator};
use crate::repr::{parse_repr, repr_of, Repr};
use vstd::prelude::*;

verus! {

/// One variant as declared.
#[derive(Debug)]
pub struct VariantDecl {
    pub name: String,
    pub explicit: Option<Explicit>,
    /// Marks the variant that takes every integer no other variant matches.
    pub catch_all: bool,
}

/// An enumeration as declared: its name, the representation token if one
/// was given, and its variants in declaration order.
#[derive(Debug)]
pub struct EnumDecl {
    pub ident: String,
    pub repr: Option<String>,
    pub variants: Vec<VariantDecl>,
}

pub ghost struct VariantSpec {
    pub name: Seq<char>,
    pub explicit: Option<Explicit>,
    pub catch_all: bool,
}

impl VariantDecl {
    pub open spec fn view(&self) -> VariantSpec {
        VariantSpec { name: self.name@, explicit: self.explicit, catch_all: self.catch_all }
    }
}

pub open spec fn variants_view(vs: Seq<VariantDecl>) -> Seq<VariantSpec> {
    vs.map_values(|v: VariantDecl| v@)
}

/// Why a schema cannot be built. An index is the offending variant's
/// position in declaration order.
#[derive(Clone, Copy, Debug, PartialEq, Eq, Structural)]
pub enum SchemaError {
    MissingRepresentation,
    UnsupportedRepresentation,
    DuplicateVariant(usize),
    MultipleCatchAll(usize),
}

/// A normal variant with its resolved discriminant.
#[derive(Debug)]
pub struct NormalVariant {
    pub name: String,
    pub disc: Disc,
}

/// A validated enumeration: names pairwise distinct, at most one catch-all,
/// normal variants in declaration order.
#[derive(Debug)]
pub struct Schema {
    pub ident: String,
    pub repr: Repr,
    pub normals: Vec<NormalVariant>,
    pub unknown: Option<String>,
}

/// What the pass over the variants has built so far.
pub ghost struct Progress {
    pub generator: Generator,
    pub normals: Seq<(Seq<char>, Disc)>,
    pub unknown: Option<Seq<char>>,
}

pub ghost struct SchemaView {
    pub ident: Seq<char>,
    pub repr: Repr,
    pub normals: Seq<(Seq<char>, Disc)>,
    pub unknown: Option<Seq<char>>,
}

pub open spec fn opt_view(o: &Option<String>) -> Option<Seq<char>> {
    match o {
        Some(u) => Some(u@),
        None => None,
    }
}

pub open spec fn normals_view(ns: Seq<NormalVariant>) -> Seq<(Seq<char>, Disc)> {
    ns.map_values(|n: NormalVariant| (n.name@, n.disc))
}

impl Schema {
    pub open spec fn view(&self) -> SchemaView {
        SchemaView {
            ident: self.ident@,
            repr: self.repr,
            normals: normals_view(self.normals@),
            unknown: opt_view(&self.unknown),
        }
    }
}

pub open spec fn name_taken(p: Progress, name: Seq<char>) -> bool {
    (exists|k: int| 0 <= k < p.normals.len() && (#[trigger] p.normals[k]).0 == name)
        || p.unknown == Some(name)
}

/// The effect of the variant at index `i` on what has been built.
pub open spec fn step(p: Progress, i: int, v: VariantSpec) -> Result<Progress, SchemaError> {
    if v.catch_all && p.unknown is Some {
        Err(SchemaError::MultipleCatchAll(i as usize))
    } else if name_taken(p, v.name) {
        Err(SchemaError::DuplicateVariant(i as usize))
    } else if v.catch_all {
        Ok(Progress { unknown: Some(v.name), ..p })
    } else {
        let (d, g) = match v.explicit {
            None => p.generator.next_spec(),
            Some(e) => p.generator.reset_spec(e),
        };
        Ok(Progress { generator: g, normals: p.normals.push((v.name, d)), ..p })
    }
}

/// The first `n` variants taken in order; the first offense decides.
pub open spec fn resolve(repr: Repr, vs: Seq<VariantSpec>, n: nat) -> Result<Progress, SchemaError>
    decreases n,
{
    if n == 0 {
        Ok(Progress { generator: Generator { repr, base: None, v: 0 }, normals: seq![], unknown: None })
    } else {
        match resolve(repr, vs, (n - 1) as nat) {
            Err(e) => Err(e),
            Ok(p) => step(p, n - 1, vs[n - 1]),
        }
    }
}

/// The schema an enumeration declares, or the first reason it has none.
pub open spec fn build_spec(
    ident: Seq<char>,
    repr: Option<Seq<char>>,
    vs: Seq<VariantSpec>,
) -> Result<SchemaView, SchemaError> {
    match repr {
        None => Err(SchemaError::MissingRepresentation),
        Some(tok) => match repr_of(tok) {
            None => Err(SchemaError::UnsupportedRepresentation),
            Some(r) => match resolve(r, vs, vs.len()) {
                Err(e) => Err(e),
                Ok(p) => Ok(SchemaView { ident, repr: r, normals: p.normals, unknown: p.unknown }),
            },
        },
    }
}

/// Once a variant is refused, the pass ends with that refusal.
pub proof fn lemma_resolve_err_stays(repr: Repr, vs: Seq<VariantSpec>, i: nat, n: nat)
    requires
        i <= n,
        resolve(repr, vs, i) is Err,
    ensures
        resolve(repr, vs, n) == resolve(repr, vs, i),
    decreases n - i,
{
    if i < n {
        lemma_resolve_err_stays(repr, vs, i, (n - 1) as nat);
    }
}

impl EnumDecl {
    pub open spec fn repr_view(&self) -> Option<Seq<char>> {
        match self.repr {
            Some(t) => Some(t@),
            None => None,
        }
    }

    pub open spec fn build_view(&self) -> Result<SchemaView, SchemaError> {
        build_spec(self.ident@, self.repr_view(), variants_view(self.variants@))
    }
}

fn name_in(normals: &Vec<NormalVariant>, unknown: &Option<String>, name: &String) -> (r: bool)
    ensures
        r == ((exists|k: int|
            0 <= k < normals@.len() && (#[trigger] normals_view(normals@)[k]).0 == name@) || match unknown {
            Some(u) => u@ == name@,
            None => false,
        }),
{
    let mut j: usize = 0;
    while j < normals.len()
        invariant
            j <= normals@.len(),
            forall|k: int| 0 <= k < j ==> (#[trigger] normals_view(normals@)[k]).0 != name@,
        decreases normals@.len() - j,
    {
        if normals[j].name == *name {
            assert(normals_view(normals@)[j as int].0 == name@);
            return true;
        }
        j = j + 1;
    }
    match unknown {
        Some(u) => *u == *name,
        None => false,
    }
}

impl Schema {
    /// Validates the declared variants and resolves their discriminants in
    /// one pass, stopping at the first offense.
    pub fn new(decl: &EnumDecl) -> (r: Result<Schema, SchemaError>)
        ensures
            decl.repr is None ==> r == Err::<Schema, SchemaError>(SchemaError::MissingRepresentation),
            decl.repr_view() matches Some(t) && repr_of(t) is None ==> r == Err::<Schema, SchemaError>(
                SchemaError::UnsupportedRepresentation,
            ),
            match r {
                Ok(s) => decl.build_view() == Ok::<SchemaView, SchemaError>(s@),
                Err(e) => decl.build_view() == Err::<SchemaView, SchemaError>(e),
            },
    {
        let repr = match &decl.repr {
            None => {
                return Err(SchemaError::MissingRepresentation);
            },
            Some(t) => match parse_repr(t.as_str()) {
                None => {
                    return Err(SchemaError::UnsupportedRepresentation);
                },
                Some(r) => r,
            },
        };
        let ghost vs = variants_view(decl.variants@);
        let mut generator = Generator::new(repr);
        let mut normals: Vec<NormalVariant> = Vec::new();
        let mut unknown: Option<String> = None;
        let mut i: usize = 0;
        assert(normals_view(normals@) == Seq::<(Seq<char>, Disc)>::empty());
        while i < decl.variants.len()
            invariant
                i <= decl.variants@.len(),
                vs == variants_view(decl.variants@),
                decl.repr_view() is Some,
                repr_of(decl.repr_view().unwrap()) == Some(repr),
                generator.v <= 0x8000_0000_0000_0000u128 + i,
                generator.repr == repr,
                resolve(repr, vs, i as nat) == Ok::<Progress, SchemaError>(
                    Progress {
                        generator,
                        normals: normals_view(normals@),
                        unknown: opt_view(&unknown),
                    },
                ),
            decreases decl.variants@.len() - i,
        {
            let v = &decl.variants[i];
            let ghost p = Progress {
                generator,
                normals: normals_view(normals@),
                unknown: opt_view(&unknown),
            };
            assert(vs[i as int] == v@);
            if v.catch_all && unknown.is_some() {
                proof {
                    lemma_resolve_err_stays(repr, vs, (i + 1) as nat, vs.len());
                }
                return Err(SchemaError::MultipleCatchAll(i));
            }
            if name_in(&normals, &unknown, &v.name) {
                proof {
                    lemma_resolve_err_stays(repr, vs, (i + 1) as nat, vs.len());
                }
                return Err(SchemaError::DuplicateVariant(i));
            }
            if v.catch_all {
                unknown = Some(v.name.clone());
            } else {
                let d = match v.explicit {
                    None => generator.next(),
                    Some(e) => {
                        proof {
                            if repr.computable() {
                                crate::generator::lemma_computable_max(repr);
                            }
                        }
                        generator.reset(e)
                    },
                };
                let ghost before = normals@;
                normals.push(NormalVariant { name: v.name.clone(), disc: d });
                assert(normals_view(normals@) == normals_view(before).push((v.name@, d)));
            }
            i = i + 1;
        }
        assert(vs.len() == decl.variants@.len());
        Ok(Schema { ident: decl.ident.clone(), repr, normals, unknown })
    }
}


/// A declaration without explicit discriminants, with distinct names and at
/// most one catch-all, numbers its normal variants 0, 1, 2, ... in
/// declaration order (taken with wraparound past the representation's
/// range).
pub proof fn lemma_default_numbering(ident: Seq<char>, tok: Seq<char>, vs: Seq<VariantSpec>)
    requires
        repr_of(tok) is Some,
        forall|i: int| 0 <= i < vs.len() ==> (#[trigger] vs[i]).explicit is None,
        forall|i: int, j: int| 0 <= i < j < vs.len() ==> (#[trigger] vs[i]).name != (#[trigger] vs[j]).name,
        forall|i: int, j: int|
            0 <= i < j < vs.len() ==> !((#[trigger] vs[i]).catch_all && (#[trigger] vs[j]).catch_all),
        vs.len() < u128::MAX,
    ensures
        build_spec(ident, Some(tok), vs) matches Ok(s) && (forall|k: int|
            0 <= k < s.normals.len() ==> (#[trigger] s.normals[k]).1 == Disc::Literal(k as u128)
                && s.normals[k].1.value(s.repr) == s.repr.wrap(k)) && ((forall|i: int|
            0 <= i < vs.len() ==> !(#[trigger] vs[i]).catch_all) ==> s.normals.len() == vs.len()
            && forall|k: int| 0 <= k < vs.len() ==> (#[trigger] s.normals[k]).0 == vs[k].name),
{
    let r = repr_of(tok).unwrap();
    lemma_sequential(r, vs, vs.len());
}

proof fn lemma_sequential(r: Repr, vs: Seq<VariantSpec>, n: nat)
    requires
        n <= vs.len(),
        forall|i: int| 0 <= i < vs.len() ==> (#[trigger] vs[i]).explicit is None,
        forall|i: int, j: int| 0 <= i < j < vs.len() ==> (#[trigger] vs[i]).name != (#[trigger] vs[j]).name,
        forall|i: int, j: int|
            0 <= i < j < vs.len() ==> !((#[trigger] vs[i]).catch_all && (#[trigger] vs[j]).catch_all),
        vs.len() < u128::MAX,
    ensures
        resolve(r, vs, n) matches Ok(p) && p.normals.len() <= n && p.generator == (Generator {
            repr: r,
            base: None,
            v: p.normals.len() as u128,
        }) && forall|k: int|
            0 <= k < p.normals.len() ==> (#[trigger] p.normals[k]).1 == Disc::Literal(k as u128),
        (forall|i: int| 0 <= i < vs.len() ==> !(#[trigger] vs[i]).catch_all) ==> (resolve(r, vs, n) matches Ok(
            p,
        ) && p.normals.len() == n && forall|k: int| 0 <= k < n ==> (#[trigger] p.normals[k]).0 == vs[k].name),
    decreases n,
{
    if n > 0 {
        lemma_sequential(r, vs, (n - 1) as nat);
        lemma_resolve_origin(r, vs, (n - 1) as nat);
        let q = resolve(r, vs, (n - 1) as nat).unwrap();
        let v = vs[n - 1];
        if exists|k: int| 0 <= k < q.normals.len() && (#[trigger] q.normals[k]).0 == v.name {
            let k = choose|k: int| 0 <= k < q.normals.len() && (#[trigger] q.normals[k]).0 == v.name;
            let i = choose|i: int|
                0 <= i < n - 1 && !vs[i].catch_all && #[trigger] q.normals[k].0 == (#[trigger] vs[i]).name;
            assert(vs[i].name != vs[n - 1].name);
        }
        if let Some(u) = q.unknown {
            let i = choose|i: int| 0 <= i < n - 1 && (#[trigger] vs[i]).catch_all && vs[i].name == u;
            assert(vs[i].name != vs[n - 1].name);
            assert(!(vs[i].catch_all && vs[n - 1].catch_all));
        }
        assert(!name_taken(q, v.name));
        if !v.catch_all {
            let p = resolve(r, vs, n).unwrap();
            assert forall|k: int| 0 <= k < p.normals.len() implies (#[trigger] p.normals[k]).1
                == Disc::Literal(k as u128) && (k < q.normals.len() ==> p.normals[k] == q.normals[k]) by {
                if k < q.normals.len() {
                    assert(p.normals[k] == q.normals[k]);
                }
            }
            assert(p.generator.v == p.normals.len() as u128);
        }
    }
}

/// Two variants of the same name make the build fail; where everything
/// before the second one was accepted, and the second is not a catch-all
/// after an earlier catch-all, it fails with `DuplicateVariant` at the
/// second one.
pub proof fn lemma_duplicate_name(repr: Repr, vs: Seq<VariantSpec>, i: int, j: int)
    requires
        0 <= i < j < vs.len(),
        vs[i].name == vs[j].name,
    ensures
        resolve(repr, vs, vs.len()) is Err,
        resolve(repr, vs, j as nat) is Ok && !(vs[j].catch_all && exists|k: int|
            0 <= k < j && (#[trigger] vs[k]).catch_all) ==> resolve(repr, vs, vs.len()) == Err::<
            Progress,
            SchemaError,
        >(SchemaError::DuplicateVariant(j as usize)),
{
    lemma_resolve_records(repr, vs, j as nat);
    lemma_resolve_origin(repr, vs, j as nat);
    if resolve(repr, vs, j as nat) is Ok {
        let p = resolve(repr, vs, j as nat).unwrap();
        assert(name_taken(p, vs[i].name));
        if let Some(u) = p.unknown {
            let m = choose|m: int| 0 <= m < j && (#[trigger] vs[m]).catch_all && vs[m].name == u;
            assert(vs[m].catch_all);
        }
    }
    lemma_resolve_err_before(repr, vs, j as nat);
    lemma_resolve_err_stays(repr, vs, (j + 1) as nat, vs.len());
}

/// Two catch-all variants make the build fail; where everything before the
/// second one was accepted, it fails with `MultipleCatchAll` at the second
/// one, whatever its name.
pub proof fn lemma_second_catch_all(repr: Repr, vs: Seq<VariantSpec>, i: int, j: int)
    requires
        0 <= i < j < vs.len(),
        vs[i].catch_all,
        vs[j].catch_all,
    ensures
        resolve(repr, vs, vs.len()) is Err,
        resolve(repr, vs, j as nat) is Ok ==> resolve(repr, vs, vs.len()) == Err::<Progress, SchemaError>(
            SchemaError::MultipleCatchAll(j as usize),
        ),
{
    lemma_resolve_records(repr, vs, j as nat);
    if resolve(repr, vs, j as nat) is Ok {
        assert(resolve(repr, vs, j as nat).unwrap().unknown is Some);
    }
    lemma_resolve_err_before(repr, vs, j as nat);
    lemma_resolve_err_stays(repr, vs, (j + 1) as nat, vs.len());
}

/// Where the pass fails before `j`, the failure carries over.
proof fn lemma_resolve_err_before(repr: Repr, vs: Seq<VariantSpec>, j: nat)
    ensures
        resolve(repr, vs, j) is Err ==> resolve(repr, vs, j + 1) == resolve(repr, vs, j),
{
}

/// Every variant the pass has taken is recorded: a catch-all as the
/// catch-all, a normal variant among the normal ones.
pub proof fn lemma_resolve_records(repr: Repr, vs: Seq<VariantSpec>, n: nat)
    requires
        n <= vs.len(),
    ensures
        resolve(repr, vs, n) matches Ok(p) ==> forall|i: int|
            0 <= i < n ==> name_taken(p, (#[trigger] vs[i]).name) && (vs[i].catch_all ==> p.unknown is Some),
    decreases n,
{
    if n > 0 {
        lemma_resolve_records(repr, vs, (n - 1) as nat);
        if let Ok(p) = resolve(repr, vs, n) {
            let q = resolve(repr, vs, (n - 1) as nat).unwrap();
            assert forall|i: int| 0 <= i < n implies name_taken(p, (#[trigger] vs[i]).name) && (vs[i].catch_all
                ==> p.unknown is Some) by {
                if i < n - 1 {
                    assert(name_taken(q, vs[i].name));
                    if exists|k: int| 0 <= k < q.normals.len() && (#[trigger] q.normals[k]).0 == vs[i].name {
                        let k = choose|k: int| 0 <= k < q.normals.len() && (#[trigger] q.normals[k]).0 == vs[i].name;
                        assert(p.normals[k] == q.normals[k]);
                    }
                } else if !vs[i].catch_all {
                    assert(p.normals[p.normals.len() - 1].0 == vs[i].name);
                }
            }
        }
    }
}

/// Whatever the pass has recorded comes from a variant it has taken.
pub proof fn lemma_resolve_origin(repr: Repr, vs: Seq<VariantSpec>, n: nat)
    requires
        n <= vs.len(),
    ensures
        resolve(repr, vs, n) matches Ok(p) ==> (forall|k: int|
            0 <= k < p.normals.len() ==> exists|i: int|
                0 <= i < n && !vs[i].catch_all && #[trigger] p.normals[k].0 == (#[trigger] vs[i]).name)
            && (p.unknown matches Some(u) ==> exists|i: int|
            0 <= i < n && (#[trigger] vs[i]).catch_all && vs[i].name == u),
    decreases n,
{
    if n > 0 {
        lemma_resolve_origin(repr, vs, (n - 1) as nat);
        if let Ok(p) = resolve(repr, vs, n) {
            let q = resolve(repr, vs, (n - 1) as nat).unwrap();
            assert forall|k: int| 0 <= k < p.normals.len() implies exists|i: int|
                0 <= i < n && !vs[i].catch_all && #[trigger] p.normals[k].0 == (#[trigger] vs[i]).name by {
                if k < q.normals.len() {
                    assert(p.normals[k] == q.normals[k]);
                } else {
                    assert(p.normals[k].0 == vs[n - 1].name);
                }
            }
        }
    }
}

} // verus!
