//! Checking a list of types for drift.
//!
//! Finding a type's schema file and its struct declaration is the caller's
//! work (it reads directories); each type arrives here with what was found.

use vstd::prelude::*;
use crate::drift::schema::JsonSchemaInfo;
use crate::drift::parser::RustTypeInfo;
use crate::drift::compare::{compare_is_defined, 
    DriftError, DriftErrorView, DriftReport, compare_types, compare_defined, drift_between, error_views,
};

verus! {

/// What was found for one type: its schema, or why not, and its struct, or why not.
#[derive(Debug)]
pub struct TypeLookup {
    pub ty_name: String,
    pub schema: Result<JsonSchemaInfo, DriftError>,
    pub rust: Result<RustTypeInfo, DriftError>,
}

/// The drift error for one type, if any: the schema's failure, else the
/// struct's, else the drift between the two.
pub open spec fn lookup_outcome(l: TypeLookup) -> Option<DriftErrorView> {
    match l.schema {
        Err(e) => Some(e@),
        Ok(schema) => match l.rust {
            Err(e) => Some(e@),
            Ok(rust) => drift_between(l.ty_name@, rust, schema),
        },
    }
}

/// The lookups whose comparison, if reached, runs to its end.
pub open spec fn lookup_defined(l: TypeLookup) -> bool {
    match (l.schema, l.rust) {
        (Ok(schema), Ok(rust)) => compare_defined(rust, schema),
        _ => true,
    }
}

/// Whether the comparison of a lookup, if reached, runs to its end.
pub fn lookup_is_defined(l: &TypeLookup) -> (res: bool)
    ensures
        res == lookup_defined(*l),
{
    match (&l.schema, &l.rust) {
        (Ok(schema), Ok(rust)) => compare_is_defined(rust, schema),
        _ => true,
    }
}

/// The drift errors of a list of lookups, in order.
pub open spec fn outcomes(ls: Seq<TypeLookup>) -> Seq<DriftErrorView>
    decreases ls.len(),
{
    if ls.len() == 0 {
        Seq::empty()
    } else {
        let rest = outcomes(ls.drop_last());
        match lookup_outcome(ls.last()) {
            Some(e) => rest.push(e),
            None => rest,
        }
    }
}

/// Checks one type.
pub fn check_single_type(lookup: TypeLookup) -> (res: Result<(), DriftError>)
    requires
        lookup_defined(lookup),
    ensures
        match lookup_outcome(lookup) {
            Some(e) => res is Err && res->Err_0@ == e,
            None => res is Ok,
        },
{
    let TypeLookup { ty_name, schema, rust } = lookup;
    let schema_info = match schema {
        Err(e) => return Err(e),
        Ok(s) => s,
    };
    let rust_info = match rust {
        Err(e) => return Err(e),
        Ok(r) => r,
    };
    compare_types(ty_name.as_str(), &rust_info, &schema_info)
}

/// Checks every type; the report holds each type's drift error in order, and
/// there is a report exactly when some type drifted.
pub fn check_drift_multi(lookups: Vec<TypeLookup>) -> (res: Result<(), DriftReport>)
    requires
        forall|i: int| 0 <= i < lookups@.len() ==> lookup_defined(#[trigger] lookups@[i]),
    ensures
        match res {
            Ok(()) => outcomes(lookups@).len() == 0,
            Err(report) => outcomes(lookups@).len() > 0 && error_views(report.errors@) == outcomes(lookups@),
        },
{
    let ghost all = lookups@;
    assert(all.len() == lookups.len());
    let mut rest = lookups;
    let mut errors: Vec<DriftError> = Vec::new();
    let mut i: usize = 0;
    while rest.len() > 0
        invariant
            i + rest@.len() == all.len(),
            all.len() <= usize::MAX,
            rest@ == all.skip(i as int),
            forall|j: int| 0 <= j < all.len() ==> lookup_defined(#[trigger] all[j]),
            error_views(errors@) == outcomes(all.take(i as int)),
        decreases rest.len(),
    {
        let l = rest.remove(0);
        proof {
            assert(l == all[i as int]);
            assert(all.take(i as int + 1).drop_last() =~= all.take(i as int));
            assert(all.take(i as int + 1).last() == all[i as int]);
            assert(rest@ =~= all.skip(i as int + 1));
        }
        match check_single_type(l) {
            Ok(()) => {},
            Err(e) => {
                errors.push(e);
                proof {
                    assert(error_views(errors@) =~= outcomes(all.take(i as int)).push(errors@.last()@));
                }
            },
        }
        i = i + 1;
    }
    proof {
        assert(all.take(i as int) =~= all);
    }
    if errors.len() == 0 {
        Ok(())
    } else {
        Err(DriftReport { errors })
    }
}

/// Checks every type of one source directory; see `check_drift_multi`.
pub fn check_drift(lookups: Vec<TypeLookup>) -> (res: Result<(), DriftReport>)
    requires
        forall|i: int| 0 <= i < lookups@.len() ==> lookup_defined(#[trigger] lookups@[i]),
    ensures
        match res {
            Ok(()) => outcomes(lookups@).len() == 0,
            Err(report) => outcomes(lookups@).len() > 0 && error_views(report.errors@) == outcomes(lookups@),
        },
{
    check_drift_multi(lookups)
}

} // verus!
