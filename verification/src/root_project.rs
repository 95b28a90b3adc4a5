//! The decisions behind `#[derive(RootProject)]`: which attributes and
//! shapes are refused, which lifetime the projection borrows for, and which
//! fields it projects.

use vstd::prelude::*;

use crate::config_map::str_equal;

verus! {

/// An attribute on the deriving type, as far as the derive cares.
#[derive(Debug, Clone, Copy, PartialEq, Eq, Structural)]
pub enum ContainerAttr {
    /// `#[root_project]`, which belongs on a field.
    RootProject,
    /// `#[repr(..)]` whose arguments parse; `packed` when one is `packed`.
    Repr { packed: bool },
    /// `#[repr(..)]` whose arguments do not parse.
    UnparsableRepr,
    Other,
}

/// The shape of the deriving type.
#[derive(Debug, Clone, Copy, PartialEq, Eq, Structural)]
pub enum DataShape {
    /// A struct with named fields.
    NamedStruct,
    Other,
}

/// An attribute on a field, as far as the derive cares.
#[derive(Debug, Clone, Copy, PartialEq, Eq, Structural)]
pub enum FieldAttr {
    /// `#[root_project]`
    RootProject,
    /// `#[root_project(..)]` or `#[root_project = ..]`
    RootProjectWithArgs,
    Other,
}

#[derive(Debug, Clone, Copy, PartialEq, Eq, Structural)]
pub enum DeriveErrorKind {
    /// `root_project belongs on a field`
    RootProjectOnContainer,
    /// The arguments of `#[repr(..)]` do not parse.
    ReprArguments,
    /// `RootProject does not support packed structs`
    Packed,
    /// `RootProject requires a struct with named fields`
    NotNamedStruct,
    /// `expected a single #[root_project] attribute`
    ExpectedSingleAttribute,
}

/// Where a derive error points.
#[derive(Debug, Clone, Copy, PartialEq, Eq, Structural)]
pub enum DeriveSite {
    ContainerAttr(usize),
    Ident,
    FieldAttr { field: usize, attr: usize },
}

#[derive(Debug, Clone, Copy, PartialEq, Eq, Structural)]
pub struct DeriveError {
    pub kind: DeriveErrorKind,
    pub site: DeriveSite,
}

/// What the derive generates: a projection that borrows for `lifetime`
/// with one method per projected field.
pub struct DerivePlan {
    pub lifetime: String,
    pub projected: Vec<usize>,
}

/* ---------------------------------------------------------------------------
 * The container
 * ------------------------------------------------------------------------- */

/// The first refused attribute among the first `n`.
pub open spec fn container_check(attrs: Seq<ContainerAttr>, n: int) -> Result<(), DeriveError>
    decreases n,
{
    if n <= 0 {
        Ok(())
    } else {
        match container_check(attrs, n - 1) {
            Err(e) => Err(e),
            Ok(()) => {
                let site = DeriveSite::ContainerAttr((n - 1) as usize);
                match attrs[n - 1] {
                    ContainerAttr::RootProject => Err(
                        DeriveError { kind: DeriveErrorKind::RootProjectOnContainer, site },
                    ),
                    ContainerAttr::UnparsableRepr => Err(
                        DeriveError { kind: DeriveErrorKind::ReprArguments, site },
                    ),
                    ContainerAttr::Repr { packed: true } => Err(
                        DeriveError { kind: DeriveErrorKind::Packed, site },
                    ),
                    _ => Ok(()),
                }
            },
        }
    }
}

/* ---------------------------------------------------------------------------
 * The lifetime
 * ------------------------------------------------------------------------- */

/// `__root_project` followed by `k` underscores.
pub open spec fn lifetime_candidate(k: nat) -> Seq<char>
    decreases k,
{
    if k == 0 {
        "__root_project"@
    } else {
        lifetime_candidate((k - 1) as nat).push('_')
    }
}

pub open spec fn longest(names: Seq<Seq<char>>) -> nat
    decreases names.len(),
{
    if names.len() == 0 {
        0
    } else {
        let rest = longest(names.drop_last());
        if names.last().len() > rest {
            names.last().len()
        } else {
            rest
        }
    }
}

pub proof fn lemma_longest(names: Seq<Seq<char>>, x: Seq<char>)
    requires
        names.contains(x),
    ensures
        x.len() <= longest(names),
    decreases names.len(),
{
    if names.last() != x {
        let i = choose|i: int| 0 <= i < names.len() && names[i] == x;
        assert(names.drop_last()[i] == x);
        lemma_longest(names.drop_last(), x);
    }
}

pub proof fn lemma_candidate_len(k: nat)
    ensures
        lifetime_candidate(k).len() == "__root_project"@.len() + k,
    decreases k,
{
    if k > 0 {
        lemma_candidate_len((k - 1) as nat);
    }
}

/// The first candidate from the `k`-th on that no existing lifetime uses.
pub open spec fn fresh_lifetime(existing: Seq<Seq<char>>, k: nat) -> Seq<char>
    decreases longest(existing) + 1 - "__root_project"@.len() - k,
{
    if existing.contains(lifetime_candidate(k)) {
        proof {
            lemma_longest(existing, lifetime_candidate(k));
            lemma_candidate_len(k);
        }
        fresh_lifetime(existing, k + 1)
    } else {
        lifetime_candidate(k)
    }
}

pub open spec fn strings_view(s: Seq<String>) -> Seq<Seq<char>> {
    s.map_values(|x: String| x@)
}

fn contains_string(names: &[String], name: &str) -> (b: bool)
    ensures
        b == strings_view(names@).contains(name@),
{
    let mut i: usize = 0;
    while i < names.len()
        invariant
            0 <= i <= names@.len(),
            forall|k: int| 0 <= k < i ==> #[trigger] names@[k]@ != name@,
        decreases names@.len() - i,
    {
        if str_equal(names[i].as_str(), name) {
            assert(strings_view(names@)[i as int] == name@);
            return true;
        }
        i += 1;
    }
    assert(!strings_view(names@).contains(name@)) by {
        if strings_view(names@).contains(name@) {
            let k = choose|k: int| 0 <= k < names@.len() && strings_view(names@)[k] == name@;
            assert(names@[k]@ != name@);
        }
    }
    false
}

/// The name, without its quote, of a lifetime that none of `existing` uses:
/// `__root_project`, with as few underscores appended as that takes.
pub fn fresh_lifetime_name(existing: &[String]) -> (name: String)
    ensures
        name@ == fresh_lifetime(strings_view(existing@), 0),
{
    let ghost names = strings_view(existing@);
    let mut name = "__root_project".to_owned();
    let ghost mut k: nat = 0;
    loop
        invariant
            names == strings_view(existing@),
            name@ == lifetime_candidate(k),
            fresh_lifetime(names, 0) == fresh_lifetime(names, k),
        decreases longest(names) + 1 - "__root_project"@.len() - k,
    {
        if !contains_string(existing, name.as_str()) {
            return name;
        }
        proof {
            lemma_longest(names, lifetime_candidate(k));
            lemma_candidate_len(k);
        }
        name.append("_");
        proof {
            reveal_strlit("_");
            k = k + 1;
        }
        assert(name@ =~= lifetime_candidate(k));
    }
}

/* ---------------------------------------------------------------------------
 * The fields
 * ------------------------------------------------------------------------- */

/// Whether a field is projected: the first of its first `n` attributes that
/// is refused, or whether one of them is `#[root_project]`.
pub open spec fn field_selected(attrs: Seq<FieldAttr>, field: int, n: int) -> Result<
    bool,
    DeriveError,
>
    decreases n,
{
    if n <= 0 {
        Ok(false)
    } else {
        match field_selected(attrs, field, n - 1) {
            Err(e) => Err(e),
            Ok(selected) => {
                let site = DeriveSite::FieldAttr { field: field as usize, attr: (n - 1) as usize };
                match attrs[n - 1] {
                    FieldAttr::Other => Ok(selected),
                    FieldAttr::RootProject => if selected {
                        Err(DeriveError { kind: DeriveErrorKind::ExpectedSingleAttribute, site })
                    } else {
                        Ok(true)
                    },
                    FieldAttr::RootProjectWithArgs => Err(
                        DeriveError { kind: DeriveErrorKind::ExpectedSingleAttribute, site },
                    ),
                }
            },
        }
    }
}

pub open spec fn attrs_views(fields: Seq<Vec<FieldAttr>>) -> Seq<Seq<FieldAttr>> {
    fields.map_values(|f: Vec<FieldAttr>| f@)
}

/// The projected fields among the first `n`.
pub open spec fn projected_fields(fields: Seq<Seq<FieldAttr>>, n: int) -> Result<
    Seq<usize>,
    DeriveError,
>
    decreases n,
{
    if n <= 0 {
        Ok(seq![])
    } else {
        match projected_fields(fields, n - 1) {
            Err(e) => Err(e),
            Ok(chosen) => match field_selected(fields[n - 1], n - 1, fields[n - 1].len() as int) {
                Err(e) => Err(e),
                Ok(true) => Ok(chosen.push((n - 1) as usize)),
                Ok(false) => Ok(chosen),
            },
        }
    }
}

/// What the derive makes of a type.
pub open spec fn planned(
    attrs: Seq<ContainerAttr>,
    shape: DataShape,
    lifetimes: Seq<Seq<char>>,
    fields: Seq<Seq<FieldAttr>>,
) -> Result<(Seq<char>, Seq<usize>), DeriveError> {
    match container_check(attrs, attrs.len() as int) {
        Err(e) => Err(e),
        Ok(()) => if shape != DataShape::NamedStruct {
            Err(DeriveError { kind: DeriveErrorKind::NotNamedStruct, site: DeriveSite::Ident })
        } else {
            match projected_fields(fields, fields.len() as int) {
                Err(e) => Err(e),
                Ok(chosen) => Ok((fresh_lifetime(lifetimes, 0), chosen)),
            }
        },
    }
}

proof fn lemma_container_failed(attrs: Seq<ContainerAttr>, n: int, m: int)
    requires
        0 <= n <= m,
        container_check(attrs, n) is Err,
    ensures
        container_check(attrs, m) == container_check(attrs, n),
    decreases m - n,
{
    if n < m {
        lemma_container_failed(attrs, n, m - 1);
    }
}

proof fn lemma_field_failed(attrs: Seq<FieldAttr>, field: int, n: int, m: int)
    requires
        0 <= n <= m,
        field_selected(attrs, field, n) is Err,
    ensures
        field_selected(attrs, field, m) == field_selected(attrs, field, n),
    decreases m - n,
{
    if n < m {
        lemma_field_failed(attrs, field, n, m - 1);
    }
}

proof fn lemma_fields_failed(fields: Seq<Seq<FieldAttr>>, n: int, m: int)
    requires
        0 <= n <= m,
        projected_fields(fields, n) is Err,
    ensures
        projected_fields(fields, m) == projected_fields(fields, n),
    decreases m - n,
{
    if n < m {
        lemma_fields_failed(fields, n, m - 1);
    }
}

fn is_field_selected(attrs: &Vec<FieldAttr>, field: usize) -> (r: Result<bool, DeriveError>)
    ensures
        field_selected(attrs@, field as int, attrs@.len() as int) == match r {
            Ok(b) => Ok::<bool, DeriveError>(b),
            Err(e) => Err::<bool, DeriveError>(e),
        },
{
    let mut selected = false;
    let mut i: usize = 0;
    while i < attrs.len()
        invariant
            0 <= i <= attrs@.len(),
            field_selected(attrs@, field as int, i as int) == Ok::<bool, DeriveError>(selected),
        decreases attrs@.len() - i,
    {
        proof {
            if field_selected(attrs@, field as int, i + 1) is Err {
                lemma_field_failed(attrs@, field as int, i + 1, attrs@.len() as int);
            }
        }
        let site = DeriveSite::FieldAttr { field, attr: i };
        match attrs[i] {
            FieldAttr::Other => {},
            FieldAttr::RootProject => {
                if selected {
                    return Err(DeriveError { kind: DeriveErrorKind::ExpectedSingleAttribute, site });
                }
                selected = true;
            },
            FieldAttr::RootProjectWithArgs => {
                return Err(DeriveError { kind: DeriveErrorKind::ExpectedSingleAttribute, site });
            },
        }
        i += 1;
    }
    Ok(selected)
}

/// Decides what `#[derive(RootProject)]` generates for a type with the
/// attributes `attrs`, the shape `shape`, the lifetime parameters
/// `lifetimes` (their names without the quote) and fields with the
/// attributes `fields`.
pub fn derive_plan(
    attrs: &[ContainerAttr],
    shape: DataShape,
    lifetimes: &[String],
    fields: &[Vec<FieldAttr>],
) -> (r: Result<DerivePlan, DeriveError>)
    ensures
        match r {
            Ok(plan) => planned(attrs@, shape, strings_view(lifetimes@), attrs_views(fields@))
                == Ok::<(Seq<char>, Seq<usize>), DeriveError>((plan.lifetime@, plan.projected@)),
            Err(e) => planned(attrs@, shape, strings_view(lifetimes@), attrs_views(fields@))
                == Err::<(Seq<char>, Seq<usize>), DeriveError>(e),
        },
{
    let mut i: usize = 0;
    while i < attrs.len()
        invariant
            0 <= i <= attrs@.len(),
            container_check(attrs@, i as int) == Ok::<(), DeriveError>(()),
        decreases attrs@.len() - i,
    {
        proof {
            if container_check(attrs@, i + 1) is Err {
                lemma_container_failed(attrs@, i + 1, attrs@.len() as int);
            }
        }
        let site = DeriveSite::ContainerAttr(i);
        match attrs[i] {
            ContainerAttr::RootProject => {
                return Err(DeriveError { kind: DeriveErrorKind::RootProjectOnContainer, site });
            },
            ContainerAttr::UnparsableRepr => {
                return Err(DeriveError { kind: DeriveErrorKind::ReprArguments, site });
            },
            ContainerAttr::Repr { packed } => {
                if packed {
                    return Err(DeriveError { kind: DeriveErrorKind::Packed, site });
                }
            },
            ContainerAttr::Other => {},
        }
        i += 1;
    }
    match shape {
        DataShape::NamedStruct => {},
        DataShape::Other => {
            return Err(
                DeriveError { kind: DeriveErrorKind::NotNamedStruct, site: DeriveSite::Ident },
            );
        },
    }
    let lifetime = fresh_lifetime_name(lifetimes);
    let ghost views = attrs_views(fields@);
    let mut projected: Vec<usize> = Vec::new();
    let mut f: usize = 0;
    while f < fields.len()
        invariant
            views == attrs_views(fields@),
            container_check(attrs@, attrs@.len() as int) == Ok::<(), DeriveError>(()),
            shape == DataShape::NamedStruct,
            lifetime@ == fresh_lifetime(strings_view(lifetimes@), 0),
            0 <= f <= fields@.len(),
            projected_fields(views, f as int) == Ok::<Seq<usize>, DeriveError>(projected@),
        decreases fields@.len() - f,
    {
        proof {
            if projected_fields(views, f + 1) is Err {
                lemma_fields_failed(views, f + 1, fields@.len() as int);
            }
        }
        assert(views[f as int] == fields@[f as int]@);
        match is_field_selected(&fields[f], f) {
            Err(e) => {
                return Err(e);
            },
            Ok(true) => {
                projected.push(f);
            },
            Ok(false) => {},
        }
        f += 1;
    }
    Ok(DerivePlan { lifetime, projected })
}

/// The lifetime the projection borrows for is not one that the type already
/// declares, and it is the shortest such candidate.
pub proof fn lemma_fresh_lifetime(existing: Seq<Seq<char>>, k: nat)
    ensures
        !existing.contains(fresh_lifetime(existing, k)),
        exists|j: nat|
            j >= k && fresh_lifetime(existing, k) == lifetime_candidate(j) && forall|i: nat|
                k <= i < j ==> existing.contains(#[trigger] lifetime_candidate(i)),
    decreases longest(existing) + 1 - "__root_project"@.len() - k,
{
    if existing.contains(lifetime_candidate(k)) {
        lemma_longest(existing, lifetime_candidate(k));
        lemma_candidate_len(k);
        lemma_fresh_lifetime(existing, k + 1);
        let j = choose|j: nat|
            j >= k + 1 && fresh_lifetime(existing, k + 1) == lifetime_candidate(j) && forall|i: nat|
                k + 1 <= i < j ==> existing.contains(#[trigger] lifetime_candidate(i));
        assert forall|i: nat| k <= i < j implies existing.contains(
            #[trigger] lifetime_candidate(i),
        ) by {}
    } else {
        assert(forall|i: nat| k <= i < k ==> existing.contains(#[trigger] lifetime_candidate(i)));
    }
}

} // verus!
