//! Diagnostic text shared by the reconciler and the generated matchers.

use vstd::prelude::*;
use vstd::string::StringExecFns;

verus! {

/// The views of a list of strings.
pub open spec fn views_of(v: Seq<String>) -> Seq<Seq<char>> {
    v.map_values(|s: String| s@)
}

/// `parts` joined with `sep` between consecutive parts.
pub open spec fn join_with(parts: Seq<Seq<char>>, sep: Seq<char>) -> Seq<char>
    decreases parts.len(),
{
    if parts.len() == 0 {
        Seq::empty()
    } else if parts.len() == 1 {
        parts[0]
    } else {
        parts[0] + sep + join_with(parts.drop_first(), sep)
    }
}

proof fn lemma_join_with_push(parts: Seq<Seq<char>>, sep: Seq<char>, last: Seq<char>)
    requires
        parts.len() >= 1,
    ensures
        join_with(parts.push(last), sep) == join_with(parts, sep) + sep + last,
    decreases parts.len(),
{
    let p = parts.push(last);
    if parts.len() == 1 {
        assert(p.drop_first() =~~= seq![last]);
        assert(join_with(seq![last], sep) == last);
        assert(join_with(p, sep) == p[0] + sep + join_with(p.drop_first(), sep));
        assert(join_with(p, sep) =~= parts[0] + sep + last);
        assert(join_with(parts, sep) + sep + last =~= parts[0] + sep + last);
    } else {
        lemma_join_with_push(parts.drop_first(), sep, last);
        assert(p.drop_first() =~~= parts.drop_first().push(last));
        assert(join_with(p, sep) == p[0] + sep + join_with(p.drop_first(), sep));
        assert(join_with(p, sep) =~= join_with(parts, sep) + sep + last);
    }
}

/// How a list of argument names reads in a diagnostic: a single name in
/// backquotes, several names bracketed and comma-separated.
pub open spec fn spec_format_names(names: Seq<Seq<char>>) -> Seq<char> {
    if names.len() == 1 {
        "`"@ + names[0] + "`"@
    } else {
        "["@ + join_with(names, ", "@) + "]"@
    }
}

/// Join a list of names with a comma and a space.
pub fn join_names(names: &Vec<String>) -> (r: String)
    ensures
        r@ == join_with(views_of(names@), ", "@),
{
    let mut out: String = String::new();
    let ghost vs = views_of(names@);
    let mut i: usize = 0;
    while i < names.len()
        invariant
            0 <= i <= names.len(),
            vs == views_of(names@),
            vs.len() == names@.len(),
            out@ == join_with(vs.subrange(0, i as int), ", "@),
        decreases names.len() - i,
    {
        if i > 0 {
            out.append(", ");
        }
        out.append(names[i].as_str());
        proof {
            let prev = vs.subrange(0, i as int);
            assert(vs.subrange(0, i + 1 as int) =~= prev.push(vs[i as int]));
            if i > 0 {
                lemma_join_with_push(prev, ", "@, vs[i as int]);
            } else {
                assert(join_with(prev.push(vs[i as int]), ", "@) =~= vs[i as int]);
            }
        }
        i = i + 1;
    }
    proof {
        assert(vs.subrange(0, names@.len() as int) =~= vs);
    }
    out
}

/// Render a list of argument names for a diagnostic.
pub fn format_names(names: &Vec<String>) -> (r: String)
    ensures
        r@ == spec_format_names(views_of(names@)),
{
    let mut out: String = String::new();
    if names.len() == 1 {
        out.append("`");
        out.append(names[0].as_str());
        out.append("`");
        assert(out@ =~= spec_format_names(views_of(names@)));
    } else {
        out.append("[");
        let joined = join_names(names);
        out.append(joined.as_str());
        out.append("]");
    }
    out
}

/// The diagnostic emitted when a call leaves parameters without a default
/// unfilled: names the number correctly and lists the offending parameters.
pub open spec fn spec_report_missing(names: Seq<Seq<char>>) -> Seq<char> {
    let plural = if names.len() == 1 { ""@ } else { "s"@ };
    "Must specify value"@ + plural + " for non-defaulted argument"@ + plural + ": "@
        + spec_format_names(names)
}

/// Build the missing-required-argument diagnostic text.
pub fn report_missing(missing: &Vec<String>) -> (r: String)
    ensures
        r@ == spec_report_missing(views_of(missing@)),
{
    let plural: &str = if missing.len() == 1 { "" } else { "s" };
    let mut out: String = String::new();
    out.append("Must specify value");
    out.append(plural);
    out.append(" for non-defaulted argument");
    out.append(plural);
    out.append(": ");
    let names = format_names(missing);
    out.append(names.as_str());
    proof {
        assert(out@ =~= spec_report_missing(views_of(missing@)));
    }
    out
}

} // verus!
