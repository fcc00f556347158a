//! What the report of an error says: its identifier, its headline and the
//! label under the source it points at.

use crate::const_value::{Errors, const_text, has_float, push_str};
use crate::literal::string_of;
use crate::names::{Context, object_identifier, valid_object};
use crate::types::{AnyTypeKey, Types, float_free, path_text, type_text, valid_key, wf};
use vstd::prelude::*;

verus! {

/// The type can be printed: a key of a well-formed store without floats.
pub open spec fn printable(types: Types, t: AnyTypeKey) -> bool {
    wf(types) && float_free(types) && valid_key(types, t)
}

/// The error is one of those that have a report, and what the report
/// names can be printed.
pub open spec fn reportable(ctx: Context, e: Errors) -> bool {
    match e {
        Errors::IllegalType(o) => valid_object(ctx.objects, o),
        Errors::NonConstraintType(o) => valid_object(ctx.objects, o),
        Errors::CouldNotSubstituteType(t) => printable(ctx.types, t),
        Errors::TypeMismatch { expected, got } => printable(ctx.types, expected) && printable(ctx.types, got),
        Errors::TypeNotFound(_) => true,
        Errors::ObjectNotFound(_) => true,
        Errors::NotConst => true,
        Errors::EvalModule(_, _) => true,
        Errors::UndefinedSelf => true,
        Errors::NonPrimitiveType { got } => printable(ctx.types, got),
        Errors::ExpectedNumericConst { got } => !has_float(got),
        _ => false,
    }
}

/// The report's identifier: `400` to `411` in the order of the kinds
/// (`407` belongs to constant operators that cannot be applied).
pub open spec fn report_id(e: Errors) -> Seq<char> {
    match e {
        Errors::IllegalType(_) => "400"@,
        Errors::NonConstraintType(_) => "401"@,
        Errors::CouldNotSubstituteType(_) => "402"@,
        Errors::TypeMismatch { .. } => "403"@,
        Errors::TypeNotFound(_) => "404"@,
        Errors::ObjectNotFound(_) => "405"@,
        Errors::NotConst => "406"@,
        Errors::EvalModule(_, _) => "408"@,
        Errors::UndefinedSelf => "409"@,
        Errors::NonPrimitiveType { .. } => "410"@,
        Errors::ExpectedNumericConst { .. } => "411"@,
        _ => Seq::empty(),
    }
}

/// The report's headline.
pub open spec fn report_header(ctx: Context, e: Errors) -> Seq<char> {
    match e {
        Errors::IllegalType(o) => "Use of type "@ + object_identifier(ctx.objects, o)@ + " is illegal here"@,
        Errors::NonConstraintType(o) => "Type "@ + object_identifier(ctx.objects, o)@ + " must be a trait type"@,
        Errors::CouldNotSubstituteType(t) => "Could not substitute for type "@ + type_text(ctx.types, t),
        Errors::TypeMismatch { expected, got } => "Type mismatch, expected: "@ + type_text(ctx.types, expected)
            + ", got "@ + type_text(ctx.types, got),
        Errors::TypeNotFound(p) => "Type "@ + path_text(p@, p@.len()) + " not found"@,
        Errors::ObjectNotFound(p) => "Object "@ + path_text(p@, p@.len()) + " not found"@,
        Errors::NotConst => "Could not evaluate in constant context"@,
        Errors::EvalModule(p, _) => "Could not evaluate a module "@ + path_text(p@, p@.len()),
        Errors::UndefinedSelf => "Self is not defined in this context"@,
        Errors::NonPrimitiveType { got } => "Context only allows primitive types, got: "@ + type_text(ctx.types, got),
        Errors::ExpectedNumericConst { got } => "Expected a numeric constant, got: "@ + const_text(got),
        _ => Seq::empty(),
    }
}

/// The label under the source the report points at.
pub open spec fn report_snippet(ctx: Context, e: Errors) -> Seq<char> {
    match e {
        Errors::IllegalType(o) => "Got "@ + object_identifier(ctx.objects, o)@,
        Errors::NonConstraintType(o) => "Got "@ + object_identifier(ctx.objects, o)@,
        Errors::CouldNotSubstituteType(_) => "Use of generic argument is illegal"@,
        Errors::TypeMismatch { got, .. } => "Got "@ + type_text(ctx.types, got),
        Errors::TypeNotFound(_) => "Unknown"@,
        Errors::ObjectNotFound(_) => "Unknown"@,
        Errors::NotConst => "not constant"@,
        Errors::EvalModule(_, _) => "Module evaluation"@,
        Errors::UndefinedSelf => "Self undefined"@,
        Errors::NonPrimitiveType { .. } => "Non primitive type"@,
        Errors::ExpectedNumericConst { .. } => "Expected numeric"@,
        _ => Seq::empty(),
    }
}

/// The text `a`, owned.
fn owned(a: &str) -> (r: String)
    ensures
        r@ == a@,
{
    let mut out: Vec<char> = Vec::new();
    push_str(&mut out, a);
    string_of(out.as_slice())
}

/// `a` then `b`.
fn concat2(a: &str, b: &str) -> (r: String)
    ensures
        r@ == a@ + b@,
{
    let mut out: Vec<char> = Vec::new();
    push_str(&mut out, a);
    push_str(&mut out, b);
    string_of(out.as_slice())
}

/// `a`, `b`, then `c`.
fn concat3(a: &str, b: &str, c: &str) -> (r: String)
    ensures
        r@ == a@ + b@ + c@,
{
    let mut out: Vec<char> = Vec::new();
    push_str(&mut out, a);
    push_str(&mut out, b);
    push_str(&mut out, c);
    string_of(out.as_slice())
}

/// The names of a path joined with `::`.
fn joined_path(p: &Vec<String>) -> (r: String)
    ensures
        r@ == path_text(p@, p@.len()),
{
    let mut out: Vec<char> = Vec::new();
    let mut i: usize = 0;
    while i < p.len()
        invariant
            i <= p@.len(),
            out@ == path_text(p@, i as nat),
        decreases p@.len() - i,
    {
        if i > 0 {
            out.push(':');
            out.push(':');
        }
        push_str(&mut out, p[i].as_str());
        i = i + 1;
    }
    string_of(out.as_slice())
}

impl Errors {
    /// The identifier, headline and label of the error's report (see
    /// `report_id`, `report_header` and `report_snippet`).
    pub fn id_header_snippet_report(&self, ctx: &Context) -> (r: (&'static str, String, String))
        requires
            reportable(*ctx, *self),
        ensures
            r.0@ == report_id(*self),
            r.1@ == report_header(*ctx, *self),
            r.2@ == report_snippet(*ctx, *self),
    {
        match self {
            Errors::IllegalType(obj) => {
                let ident = obj.ident(ctx);
                (
                    "400",
                    concat3("Use of type ", ident.as_str(), " is illegal here"),
                    concat2("Got ", ident.as_str()),
                )
            },
            Errors::NonConstraintType(obj) => {
                let ident = obj.ident(ctx);
                (
                    "401",
                    concat3("Type ", ident.as_str(), " must be a trait type"),
                    concat2("Got ", ident.as_str()),
                )
            },
            Errors::CouldNotSubstituteType(ty) => {
                let t = ty.stringify(&ctx.types);
                (
                    "402",
                    concat2("Could not substitute for type ", t.as_str()),
                    owned("Use of generic argument is illegal"),
                )
            },
            Errors::TypeMismatch { expected, got } => {
                let e = expected.stringify(&ctx.types);
                let g = got.stringify(&ctx.types);
                let mut header: Vec<char> = Vec::new();
                push_str(&mut header, "Type mismatch, expected: ");
                push_str(&mut header, e.as_str());
                push_str(&mut header, ", got ");
                push_str(&mut header, g.as_str());
                ("403", string_of(header.as_slice()), concat2("Got ", g.as_str()))
            },
            Errors::TypeNotFound(path) => {
                let p = joined_path(path);
                ("404", concat3("Type ", p.as_str(), " not found"), owned("Unknown"))
            },
            Errors::ObjectNotFound(path) => {
                let p = joined_path(path);
                ("405", concat3("Object ", p.as_str(), " not found"), owned("Unknown"))
            },
            Errors::NotConst => (
                "406",
                owned("Could not evaluate in constant context"),
                owned("not constant"),
            ),
            Errors::EvalModule(path, _) => {
                let p = joined_path(path);
                ("408", concat2("Could not evaluate a module ", p.as_str()), owned("Module evaluation"))
            },
            Errors::UndefinedSelf => (
                "409",
                owned("Self is not defined in this context"),
                owned("Self undefined"),
            ),
            Errors::NonPrimitiveType { got } => {
                let g = got.stringify(&ctx.types);
                (
                    "410",
                    concat2("Context only allows primitive types, got: ", g.as_str()),
                    owned("Non primitive type"),
                )
            },
            Errors::ExpectedNumericConst { got } => {
                let g = got.stringify();
                (
                    "411",
                    concat2("Expected a numeric constant, got: ", g.as_str()),
                    owned("Expected numeric"),
                )
            },
            _ => vstd::pervasive::unreached(),
        }
    }
}

} // verus!
