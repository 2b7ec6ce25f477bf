//! The place resolver: given a place (base variable plus projection path),
//! compute the type it resolves to after field lookups with generic struct
//! substitution, and the ordered list of origins encountered on the way.

use vstd::prelude::*;

use crate::ast::{
    origins_of_ty, view_param, view_params, GenericDecl, GenericDeclView, Name, Parameter, ParameterView,
    Place, PlaceView, Program, ProgramView, Projection, ProjectionView, StructDecl,
    StructDeclView, Ty, TyView, VariableDecl, VariableDeclView,
};

verus! {

/// Why a place failed to resolve, or why fact emission failed.
#[derive(Debug, PartialEq, Eq)]
pub enum ErrorKind {
    /// The place's base names no declared variable.
    UnknownVariable(Name),
    /// A field projection's parent type names no declared struct.
    UnknownStruct(Name),
    /// The struct declaration has no field of this name.
    UnknownField(Name),
    /// A field projection was applied to a non-struct type.
    FieldOnNonStruct,
    /// A deref projection was applied to a non-reference type.
    DerefOnNonRef,
    /// A generic-parameter position held an origin where a type was needed,
    /// or named a position the struct's arguments do not provide.
    KindMismatch,
    /// During subset introduction, the two sides of an assignment do not
    /// have the same type shape.
    ShapeMismatch,
}

/// Spec-level mirror of `ErrorKind`.
pub enum ErrorKindView {
    UnknownVariable(Seq<char>),
    UnknownStruct(Seq<char>),
    UnknownField(Seq<char>),
    FieldOnNonStruct,
    DerefOnNonRef,
    KindMismatch,
    ShapeMismatch,
}

impl DeepView for ErrorKind {
    type V = ErrorKindView;

    open spec fn deep_view(&self) -> ErrorKindView {
        match self {
            ErrorKind::UnknownVariable(n) => ErrorKindView::UnknownVariable(n@),
            ErrorKind::UnknownStruct(n) => ErrorKindView::UnknownStruct(n@),
            ErrorKind::UnknownField(n) => ErrorKindView::UnknownField(n@),
            ErrorKind::FieldOnNonStruct => ErrorKindView::FieldOnNonStruct,
            ErrorKind::DerefOnNonRef => ErrorKindView::DerefOnNonRef,
            ErrorKind::KindMismatch => ErrorKindView::KindMismatch,
            ErrorKind::ShapeMismatch => ErrorKindView::ShapeMismatch,
        }
    }
}

/// What resolving a place yields: its type and the origins met on the way.
pub type ResolvedView = (TyView, Seq<Seq<char>>);

/// The first declared variable of this name, if any.
pub open spec fn find_variable(vars: Seq<VariableDeclView>, name: Seq<char>) -> Option<
    VariableDeclView,
>
    decreases vars.len(),
{
    if vars.len() == 0 {
        None
    } else if vars[0].name == name {
        Some(vars[0])
    } else {
        find_variable(vars.subrange(1, vars.len() as int), name)
    }
}

/// The first declared struct of this name, if any.
pub open spec fn find_struct(decls: Seq<StructDeclView>, name: Seq<char>) -> Option<
    StructDeclView,
>
    decreases decls.len(),
{
    if decls.len() == 0 {
        None
    } else if decls[0].name == name {
        Some(decls[0])
    } else {
        find_struct(decls.subrange(1, decls.len() as int), name)
    }
}

/// The position of the first generic *type* declaration of this name, if
/// any; generic origin declarations do not count.
pub open spec fn ty_param_position(gens: Seq<GenericDeclView>, name: Seq<char>) -> Option<int>
    decreases gens.len(),
{
    if gens.len() == 0 {
        None
    } else if gens[0] == GenericDeclView::Ty(name) {
        Some(0)
    } else {
        match ty_param_position(gens.subrange(1, gens.len() as int), name) {
            Some(i) => Some(i + 1),
            None => None,
        }
    }
}

pub proof fn lemma_ty_param_position_bounds(gens: Seq<GenericDeclView>, name: Seq<char>)
    ensures
        match ty_param_position(gens, name) {
            Some(i) => 0 <= i < gens.len(),
            None => true,
        },
    decreases gens.len(),
{
    if gens.len() > 0 {
        lemma_ty_param_position_bounds(gens.subrange(1, gens.len() as int), name);
    }
}

/// The substituted type of a field: when the field's declared type is a
/// bare struct name `g` that matches a generic type declaration of the
/// parent struct at position `i`, the parent's `i`-th argument is used; it
/// must then be a type argument. Any other declared type is used verbatim
/// (generic origins are not substituted).
pub open spec fn field_ty_subst(
    decl: StructDeclView,
    arguments: Seq<ParameterView>,
    field_ty: TyView,
) -> Result<TyView, ErrorKindView> {
    match field_ty {
        TyView::Struct { name: g, parameters } => {
            if parameters.len() == 0 {
                match ty_param_position(decl.generic_decls, g) {
                    Some(i) => {
                        if 0 <= i < arguments.len() {
                            match arguments[i] {
                                ParameterView::Ty(t) => Ok(t),
                                ParameterView::Origin(o) => Err(ErrorKindView::KindMismatch),
                            }
                        } else {
                            Err(ErrorKindView::KindMismatch)
                        }
                    },
                    None => Ok(field_ty),
                }
            } else {
                Ok(field_ty)
            }
        },
        _ => Ok(field_ty),
    }
}

/// The first declared field of this name within a struct, if any.
pub open spec fn find_field(fields: Seq<VariableDeclView>, name: Seq<char>) -> Option<
    VariableDeclView,
>
    decreases fields.len(),
{
    if fields.len() == 0 {
        None
    } else if fields[0].name == name {
        Some(fields[0])
    } else {
        find_field(fields.subrange(1, fields.len() as int), name)
    }
}

/// One resolution walk: starting from `ty` with `acc` already collected,
/// apply the remaining projections in order. A field projection first
/// records every origin of the parent type, then descends into the
/// substituted field type; a deref projection records the reference's own
/// origin, then descends into the pointee. At the end the origins of the
/// final type are recorded as well.
pub open spec fn resolve_steps(
    p: ProgramView,
    ty: TyView,
    projs: Seq<ProjectionView>,
    acc: Seq<Seq<char>>,
) -> Result<ResolvedView, ErrorKindView>
    decreases projs.len(),
{
    if projs.len() == 0 {
        Ok((ty, acc + origins_of_ty(ty)))
    } else {
        match projs[0] {
            ProjectionView::Field(f) => match ty {
                TyView::Struct { name, parameters } => {
                    let acc2 = acc + origins_of_ty(ty);
                    match find_struct(p.struct_decls, name) {
                        None => Err(ErrorKindView::UnknownStruct(name)),
                        Some(decl) => match find_field(decl.field_decls, f) {
                            None => Err(ErrorKindView::UnknownField(f)),
                            Some(fd) => match field_ty_subst(decl, parameters, fd.ty) {
                                Err(e) => Err(e),
                                Ok(t2) => resolve_steps(
                                    p,
                                    t2,
                                    projs.subrange(1, projs.len() as int),
                                    acc2,
                                ),
                            },
                        },
                    }
                },
                _ => Err(ErrorKindView::FieldOnNonStruct),
            },
            ProjectionView::Deref => match ty {
                TyView::Ref { origin, ty: inner } => resolve_steps(
                    p,
                    *inner,
                    projs.subrange(1, projs.len() as int),
                    acc + seq![origin],
                ),
                TyView::RefMut { origin, ty: inner } => resolve_steps(
                    p,
                    *inner,
                    projs.subrange(1, projs.len() as int),
                    acc + seq![origin],
                ),
                _ => Err(ErrorKindView::DerefOnNonRef),
            },
        }
    }
}

/// Resolution of a whole place: look its base up among the program's
/// variable declarations and walk its projections.
pub open spec fn resolve_place(p: ProgramView, pl: PlaceView) -> Result<
    ResolvedView,
    ErrorKindView,
> {
    match find_variable(p.variables, pl.base) {
        None => Err(ErrorKindView::UnknownVariable(pl.base)),
        Some(v) => resolve_steps(p, v.ty, pl.projections, Seq::empty()),
    }
}

/// Looks the name up among the variable declarations; yields the index of
/// the first declaration with that name.
#[verifier::loop_isolation(false)]
fn lookup_variable(vars: &Vec<VariableDecl>, name: &Name) -> (r: Option<usize>)
    ensures
        match r {
            Some(i) => 0 <= i < vars@.len() && find_variable(vars.deep_view(), name@) == Some(
                vars@[i as int].deep_view(),
            ),
            None => find_variable(vars.deep_view(), name@) is None,
        },
{
    let n = vars.len();
    let mut i: usize = 0;
    proof {
        assert(vars.deep_view().subrange(0, vars@.len() as int) =~= vars.deep_view());
    }
    while i < n
        invariant
            i <= n,
            find_variable(vars.deep_view(), name@) == find_variable(
                vars.deep_view().subrange(i as int, vars@.len() as int),
                name@,
            ),
        decreases n - i,
    {
        let ghost vv = vars.deep_view();
        let ghost suf = vv.subrange(i as int, vv.len() as int);
        proof {
            assert(suf[0] == vv[i as int]);
            assert(suf.subrange(1, suf.len() as int) =~= vv.subrange(i as int + 1, vv.len() as int));
        }
        if vars[i].name == *name {
            return Some(i);
        }
        i = i + 1;
    }
    proof {
        assert(vars.deep_view().subrange(i as int, vars@.len() as int) =~= Seq::<
            VariableDeclView,
        >::empty());
    }
    None
}

/// Looks the name up among the struct declarations; yields the index of the
/// first declaration with that name.
#[verifier::loop_isolation(false)]
fn lookup_struct(decls: &Vec<StructDecl>, name: &Name) -> (r: Option<usize>)
    ensures
        match r {
            Some(i) => 0 <= i < decls@.len() && find_struct(decls.deep_view(), name@) == Some(
                decls@[i as int].deep_view(),
            ),
            None => find_struct(decls.deep_view(), name@) is None,
        },
{
    let n = decls.len();
    let mut i: usize = 0;
    proof {
        assert(decls.deep_view().subrange(0, decls@.len() as int) =~= decls.deep_view());
    }
    while i < n
        invariant
            i <= n,
            find_struct(decls.deep_view(), name@) == find_struct(
                decls.deep_view().subrange(i as int, decls@.len() as int),
                name@,
            ),
        decreases n - i,
    {
        let ghost vv = decls.deep_view();
        let ghost suf = vv.subrange(i as int, vv.len() as int);
        proof {
            assert(suf[0] == vv[i as int]);
            assert(suf.subrange(1, suf.len() as int) =~= vv.subrange(i as int + 1, vv.len() as int));
        }
        if decls[i].name == *name {
            return Some(i);
        }
        i = i + 1;
    }
    proof {
        assert(decls.deep_view().subrange(i as int, decls@.len() as int) =~= Seq::<
            StructDeclView,
        >::empty());
    }
    None
}

/// Looks the name up among a struct's fields; yields the index of the first
/// field with that name.
#[verifier::loop_isolation(false)]
fn lookup_field(fields: &Vec<VariableDecl>, name: &Name) -> (r: Option<usize>)
    ensures
        match r {
            Some(i) => 0 <= i < fields@.len() && find_field(fields.deep_view(), name@) == Some(
                fields@[i as int].deep_view(),
            ),
            None => find_field(fields.deep_view(), name@) is None,
        },
{
    let n = fields.len();
    let mut i: usize = 0;
    proof {
        assert(fields.deep_view().subrange(0, fields@.len() as int) =~= fields.deep_view());
    }
    while i < n
        invariant
            i <= n,
            find_field(fields.deep_view(), name@) == find_field(
                fields.deep_view().subrange(i as int, fields@.len() as int),
                name@,
            ),
        decreases n - i,
    {
        let ghost vv = fields.deep_view();
        let ghost suf = vv.subrange(i as int, vv.len() as int);
        proof {
            assert(suf[0] == vv[i as int]);
            assert(suf.subrange(1, suf.len() as int) =~= vv.subrange(i as int + 1, vv.len() as int));
        }
        if fields[i].name == *name {
            return Some(i);
        }
        i = i + 1;
    }
    proof {
        assert(fields.deep_view().subrange(i as int, fields@.len() as int) =~= Seq::<
            VariableDeclView,
        >::empty());
    }
    None
}

/// The position of the first generic type declaration with this name.
#[verifier::loop_isolation(false)]
fn lookup_ty_param(gens: &Vec<GenericDecl>, name: &Name) -> (r: Option<usize>)
    ensures
        match r {
            Some(i) => ty_param_position(gens.deep_view(), name@) == Some(i as int),
            None => ty_param_position(gens.deep_view(), name@) is None,
        },
{
    let n = gens.len();
    let mut i: usize = 0;
    proof {
        lemma_ty_param_position_bounds(gens.deep_view(), name@);
        assert(gens.deep_view().subrange(0, gens@.len() as int) =~= gens.deep_view());
    }
    while i < n
        invariant
            i <= n,
            match ty_param_position(gens.deep_view(), name@) {
                Some(k) => i <= k && ty_param_position(
                    gens.deep_view().subrange(i as int, gens@.len() as int),
                    name@,
                ) == Some(k - i),
                None => ty_param_position(
                    gens.deep_view().subrange(i as int, gens@.len() as int),
                    name@,
                ) is None,
            },
        decreases n - i,
    {
        let ghost vv = gens.deep_view();
        let ghost suf = vv.subrange(i as int, vv.len() as int);
        proof {
            assert(suf[0] == vv[i as int]);
            assert(suf.subrange(1, suf.len() as int) =~= vv.subrange(i as int + 1, vv.len() as int));
            lemma_ty_param_position_bounds(vv.subrange(i as int + 1, vv.len() as int), name@);
        }
        let hit = match &gens[i] {
            GenericDecl::Ty(g) => *g == *name,
            GenericDecl::Origin(_) => false,
        };
        if hit {
            return Some(i);
        }
        i = i + 1;
    }
    proof {
        assert(gens.deep_view().subrange(i as int, gens@.len() as int) =~= Seq::<
            GenericDeclView,
        >::empty());
    }
    None
}

/// Resolves a place against the program's declarations: its type after all
/// projections, and every origin encountered along the way, outermost
/// first. Fails exactly when the specification-level resolution fails, with
/// the same error.
#[verifier::loop_isolation(false)]
pub fn resolve_place_in(program: &Program, place: &Place) -> (r: Result<
    (Ty, Vec<Name>),
    ErrorKind,
>)
    ensures
        match r {
            Ok(to) => resolve_place(program.deep_view(), place.deep_view()) == Ok::<
                ResolvedView,
                ErrorKindView,
            >((to.0.deep_view(), to.1.deep_view())),
            Err(e) => resolve_place(program.deep_view(), place.deep_view()) == Err::<
                ResolvedView,
                ErrorKindView,
            >(e.deep_view()),
        },
{
    broadcast use crate::ast::lemma_view_params_len, crate::ast::lemma_view_params_index_at;

    let ghost pv = program.deep_view();
    let ghost plv = place.deep_view();
    let vi = match lookup_variable(&program.variables, &place.base) {
        Some(vi) => vi,
        None => {
            return Err(ErrorKind::UnknownVariable(place.base.clone()));
        },
    };
    let mut cur: &Ty = &program.variables[vi].ty;
    let mut origins: Vec<Name> = Vec::new();
    let n = place.projections.len();
    let mut i: usize = 0;
    proof {
        assert(plv.projections.subrange(0, n as int) =~= plv.projections);
        assert(origins.deep_view() =~= Seq::<Seq<char>>::empty());
    }
    while i < n
        invariant
            i <= n,
            n == place.projections@.len(),
            resolve_place(pv, plv) == resolve_steps(
                pv,
                cur.deep_view(),
                plv.projections.subrange(i as int, n as int),
                origins.deep_view(),
            ),
        decreases n - i,
    {
        let ghost suf = plv.projections.subrange(i as int, n as int);
        proof {
            assert(suf[0] == plv.projections[i as int]);
            assert(suf.subrange(1, suf.len() as int) =~= plv.projections.subrange(
                i as int + 1,
                n as int,
            ));
        }
        match &place.projections[i] {
            Projection::Field(f) => {
                match cur {
                    Ty::Struct { name, parameters } => {
                        cur.collect_origins_into(&mut origins);
                        let si = match lookup_struct(&program.struct_decls, name) {
                            Some(si) => si,
                            None => {
                                return Err(ErrorKind::UnknownStruct(name.clone()));
                            },
                        };
                        let decl = &program.struct_decls[si];
                        let fi = match lookup_field(&decl.field_decls, f) {
                            Some(fi) => fi,
                            None => {
                                return Err(ErrorKind::UnknownField(f.clone()));
                            },
                        };
                        let fd = &decl.field_decls[fi];
                        proof {
                            crate::ast::lemma_view_params_index(parameters@);
                            assert(cur.deep_view() == TyView::Struct {
                                name: name@,
                                parameters: view_params(parameters@),
                            });
                            assert(find_struct(pv.struct_decls, name@) == Some(
                                program.struct_decls@[si as int].deep_view(),
                            ));
                            assert(find_field(
                                program.struct_decls@[si as int].deep_view().field_decls,
                                f@,
                            ) == Some(fd.deep_view()));
                        }
                        let ghost declv = program.struct_decls@[si as int].deep_view();
                        let ghost args = view_params(parameters@);
                        let next: &Ty = match &fd.ty {
                            Ty::Struct { name: g, parameters: gparams } if gparams.len() == 0 => {
                                match lookup_ty_param(&decl.generic_decls, g) {
                                    Some(gi) => {
                                        proof {
                                            assert(fd.deep_view().ty == TyView::Struct {
                                                name: g@,
                                                parameters: view_params(gparams@),
                                            });
                                            assert(view_params(gparams@).len() == 0);
                                            assert(ty_param_position(declv.generic_decls, g@)
                                                == Some(gi as int));
                                        }
                                        if gi < parameters.len() {
                                            match &parameters[gi] {
                                                Parameter::Ty(t) => {
                                                    proof {
                                                        assert(args[gi as int] == view_param(
                                                            parameters@[gi as int],
                                                        ));
                                                        assert(field_ty_subst(
                                                            declv,
                                                            args,
                                                            fd.deep_view().ty,
                                                        ) == Ok::<TyView, ErrorKindView>(
                                                            t.deep_view(),
                                                        ));
                                                    }
                                                    t
                                                },
                                                Parameter::Origin(_) => {
                                                    proof {
                                                        assert(args[gi as int] == view_param(
                                                            parameters@[gi as int],
                                                        ));
                                                        assert(field_ty_subst(
                                                            declv,
                                                            args,
                                                            fd.deep_view().ty,
                                                        ) == Err::<TyView, ErrorKindView>(
                                                            ErrorKindView::KindMismatch,
                                                        ));
                                                    }
                                                    return Err(ErrorKind::KindMismatch);
                                                },
                                            }
                                        } else {
                                            proof {
                                                assert(field_ty_subst(declv, args, fd.deep_view().ty)
                                                    == Err::<TyView, ErrorKindView>(
                                                    ErrorKindView::KindMismatch,
                                                ));
                                            }
                                            return Err(ErrorKind::KindMismatch);
                                        }
                                    },
                                    None => {
                                        proof {
                                            assert(field_ty_subst(declv, args, fd.deep_view().ty)
                                                == Ok::<TyView, ErrorKindView>(fd.deep_view().ty));
                                        }
                                        &fd.ty
                                    },
                                }
                            },
                            _ => {
                                proof {
                                    let ftv = fd.deep_view().ty;
                                    match &fd.ty {
                                        Ty::Ref { origin: o2, ty: t2 } => {
                                            assert(ftv is Ref);
                                        },
                                        Ty::RefMut { origin: o2, ty: t2 } => {
                                            assert(ftv is RefMut);
                                        },
                                        Ty::I32 => {
                                            assert(ftv is I32);
                                        },
                                        Ty::Unit => {
                                            assert(ftv is Unit);
                                        },
                                        Ty::Struct { name: g2, parameters: gp2 } => {
                                            assert(ftv == TyView::Struct {
                                                name: g2@,
                                                parameters: view_params(gp2@),
                                            });
                                            assert(gp2@.len() != 0);
                                        },
                                    }
                                    assert(field_ty_subst(declv, args, ftv) == Ok::<
                                        TyView,
                                        ErrorKindView,
                                    >(ftv));
                                }
                                &fd.ty
                            },
                        };
                        proof {
                            crate::ast::lemma_view_params_index(parameters@);
                            assert(cur.deep_view() == TyView::Struct {
                                name: name@,
                                parameters: view_params(parameters@),
                            });
                            assert(field_ty_subst(declv, args, fd.deep_view().ty) == Ok::<
                                TyView,
                                ErrorKindView,
                            >(next.deep_view()));
                        }
                        cur = next;
                    },
                    _ => {
                        return Err(ErrorKind::FieldOnNonStruct);
                    },
                }
            },
            Projection::Deref => {
                match cur {
                    Ty::Ref { origin, ty } | Ty::RefMut { origin, ty } => {
                        let ghost prev = origins.deep_view();
                        origins.push(origin.clone());
                        proof {
                            assert(origins.deep_view() =~= prev + seq![origin@]);
                        }
                        cur = ty;
                    },
                    _ => {
                        return Err(ErrorKind::DerefOnNonRef);
                    },
                }
            },
        }
        i = i + 1;
    }
    proof {
        assert(plv.projections.subrange(i as int, n as int) =~= Seq::<ProjectionView>::empty());
    }
    let ghost before = origins.deep_view();
    cur.collect_origins_into(&mut origins);
    let out_ty = cur.clone();
    Ok((out_ty, origins))
}

} // verus!
