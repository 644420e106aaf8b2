//! Named-argument call generation, modelled on plain values.
//!
//! A function declared with positional parameters can be invoked through a
//! generated macro using `name = value` pairs, with optional per-parameter
//! defaults.  This crate holds the verified core of that transformation:
//! parsing the `defaults(...)` configuration from a token list, reconciling
//! the declared defaults against the function's parameters, the state
//! machine that resolves named arguments into a positional call, and the
//! text of the generated matchers.  Splicing real compiler tokens in and
//! out of this model is left to a thin unverified shell.

use vstd::prelude::*;

pub mod arg_reconciler;
pub mod attr_parser;
pub mod generate;
pub mod matcher;
pub mod order;
pub mod table;
pub mod text;

pub use arg_reconciler::ArgDetails;
pub use attr_parser::Attribute;
pub use attr_parser::Attributes;
pub use attr_parser::Defaults;
pub use attr_parser::Tok;
pub use attr_parser::TokKind;
pub use arg_reconciler::Diag;
pub use arg_reconciler::ParamShape;
pub use arg_reconciler::ReconcileError;
pub use arg_reconciler::reconcile;
pub use generate::accumulator_name;
pub use generate::generate_accumulator;
pub use generate::generate_error_shim;
pub use generate::generate_public;
pub use generate::inner_fn_name;
pub use matcher::CallError;
pub use matcher::NamedArg;
pub use matcher::ParamSlot;
pub use matcher::resolve_call;
pub use table::DefaultDecl;
pub use table::DefaultsTable;

pub use text::format_names;
pub use text::report_missing;

verus! {

/// The annotated function, reduced to what the generator reads: its name
/// and the shapes of its parameters.  The body never matters here; the
/// shell re-emits it unchanged under the renamed function.
pub struct FnItem {
    pub name: String,
    pub params: Vec<ParamShape>,
}

/// What the annotation expands to.
pub enum Expansion {
    /// The renamed function's name, and the two matcher macros to emit
    /// beside the renamed original.
    Generated { inner_fn: String, accumulator: String, public_macro: String },
    /// A declaration-time failure: the degenerate macro that surfaces the
    /// diagnostic at every call site, and the diagnostic itself.
    Failed { shim: String, diag: Diag },
}

/// Process one annotated function: parse the configuration, reconcile it
/// against the parameters, and emit the matchers — or turn any failure
/// into the degenerate macro plus its diagnostic.  Only a parameter that
/// is no plain identifier aborts processing outright.
pub fn named(f: &FnItem, attr: &Vec<Tok>, call_site: usize) -> (r: Result<Expansion, String>)
    ensures
        ({
            let name = f.name@;
            match attr_parser::spec_parse(attr_parser::tok_views(attr@), call_site as nat) {
                Err(d) => {
                    &&& r matches Ok(Expansion::Failed { shim, diag })
                    &&& diag@ == d
                    &&& shim@ == generate::spec_error_shim(name, d.message)
                },
                Ok(items) => {
                    let table = table::spec_build(attr_parser::spec_all_decls(items));
                    match arg_reconciler::spec_extract(arg_reconciler::shape_views(f.params@)) {
                        arg_reconciler::SigCheck::BadPattern { text, span } => {
                            &&& r matches Err(m)
                            &&& m@ == arg_reconciler::spec_abort_message(text)
                        },
                        arg_reconciler::SigCheck::BadReceiver { span } => {
                            &&& r matches Ok(Expansion::Failed { shim, diag })
                            &&& diag.span as nat == span
                            &&& diag.message@ == arg_reconciler::spec_receiver_message()
                            &&& shim@ == generate::spec_error_shim(
                                name,
                                arg_reconciler::spec_receiver_message(),
                            )
                        },
                        arg_reconciler::SigCheck::Names(names) => {
                            let extras = arg_reconciler::spec_extras(table, names);
                            let slots = arg_reconciler::spec_resolved(names, table);
                            if extras.len() == 0 {
                                &&& r matches Ok(Expansion::Generated {
                                    inner_fn,
                                    accumulator,
                                    public_macro,
                                })
                                &&& inner_fn@ == generate::spec_inner_fn_name(name)
                                &&& accumulator@ == generate::spec_accumulator_macro(name, slots)
                                &&& public_macro@ == generate::spec_public_macro(name, slots)
                            } else {
                                &&& r matches Ok(Expansion::Failed { shim, diag })
                                &&& diag.message@ == arg_reconciler::spec_extras_message(
                                    extras,
                                    order::spec_sort(names),
                                )
                                &&& shim@ == generate::spec_error_shim(name, diag.message@)
                                &&& (extras.len() == 1 ==> diag.span as nat == table::decl_for(
                                    table,
                                    extras[0],
                                ).span)
                                &&& (extras.len() != 1 ==> diag.span == call_site)
                            }
                        },
                    }
                },
            }
        }),
{
    let attrs = match Attributes::parse(attr, call_site) {
        Ok(a) => a,
        Err(d) => {
            let shim = generate::generate_error_shim(&f.name, &d.message);
            return Ok(Expansion::Failed { shim, diag: d });
        },
    };
    let table = attrs.defaults();
    match arg_reconciler::reconcile(&f.params, &table, call_site) {
        Ok(details) => {
            let inner_fn = generate::inner_fn_name(&f.name);
            let accumulator = generate::generate_accumulator(&f.name, &details.defaults);
            let public_macro = generate::generate_public(&f.name, &details.defaults);
            Ok(Expansion::Generated { inner_fn, accumulator, public_macro })
        },
        Err(ReconcileError::Abort(m)) => Err(m),
        Err(ReconcileError::Diag(d)) => {
            let shim = generate::generate_error_shim(&f.name, &d.message);
            Ok(Expansion::Failed { shim, diag: d })
        },
    }
}

} // verus!
