//! Laws of option parsing, proved once and for all argument vectors.

use vstd::prelude::*;

use crate::coerce::spec_coerce;
use crate::dispatch::parse_upto;
use crate::dispatch::spec_parse_opts;
use crate::dispatch::token_after;
use crate::flags::find_flag;
use crate::numbers::spec_parse_i64;
use crate::options::OptValueView;
use crate::options::OptView;
use crate::text::starts_with_dash;

verus! {

/// Position `pos` of `args` holds a flag token naming the declared
/// descriptor at index `j` (the first declared index that token names).
pub open spec fn flag_occurrence(
    args: Seq<Seq<char>>,
    opts: Seq<OptView>,
    pos: int,
    j: int,
) -> bool {
    &&& 0 <= pos < args.len()
    &&& starts_with_dash(args[pos])
    &&& find_flag(opts, args[pos]) == Some(j)
}

proof fn lemma_parse_upto_exact(args: Seq<Seq<char>>, opts: Seq<OptView>, n: int)
    requires
        0 <= n <= args.len(),
    ensures
        forall|j: int|
            #[trigger] parse_upto(args, opts, n).dom().contains(j) <==> exists|pos: int|
                pos < n && flag_occurrence(args, opts, pos, j),
        forall|j: int, pos: int|
            #![trigger flag_occurrence(args, opts, pos, j)]
            (pos < n && flag_occurrence(args, opts, pos, j) && (forall|q: int|
                pos < q < n ==> !flag_occurrence(args, opts, q, j))) ==> parse_upto(
                args,
                opts,
                n,
            )[j] == spec_coerce(opts[j].value, token_after(args, pos)),
    decreases n,
{
    if n > 0 {
        lemma_parse_upto_exact(args, opts, n - 1);
        let m0 = parse_upto(args, opts, n - 1);
        let m = parse_upto(args, opts, n);
        let pos0 = n - 1;
        if starts_with_dash(args[pos0]) && find_flag(opts, args[pos0]) is Some {
            let j0 = choose|j0: int| find_flag(opts, args[pos0]) == Some(j0);
            assert(flag_occurrence(args, opts, pos0, j0));
            assert(m == m0.insert(j0, spec_coerce(opts[j0].value, token_after(args, pos0))));
            assert forall|j: int| #[trigger]
                m.dom().contains(j) implies exists|pos: int|
                pos < n && flag_occurrence(args, opts, pos, j) by {
                if j == j0 {
                    assert(pos0 < n && flag_occurrence(args, opts, pos0, j));
                } else {
                    assert(m0.dom().contains(j));
                    let p = choose|p: int| p < n - 1 && flag_occurrence(args, opts, p, j);
                    assert(p < n && flag_occurrence(args, opts, p, j));
                }
            }
            assert forall|j: int|
                #![trigger m.dom().contains(j)]
                (exists|pos: int| pos < n && flag_occurrence(args, opts, pos, j)) implies m.dom()
                .contains(j) by {
                let p = choose|pos: int| pos < n && flag_occurrence(args, opts, pos, j);
                if j != j0 {
                    assert(p != pos0);
                    assert(p < n - 1 && flag_occurrence(args, opts, p, j));
                    assert(m0.dom().contains(j));
                }
            }
            assert forall|j: int, pos: int|
                #![trigger flag_occurrence(args, opts, pos, j)]
                (pos < n && flag_occurrence(args, opts, pos, j) && (forall|q: int|
                    pos < q < n ==> !flag_occurrence(args, opts, q, j))) implies m[j]
                == spec_coerce(opts[j].value, token_after(args, pos)) by {
                if j == j0 {
                    if pos < pos0 {
                        assert(flag_occurrence(args, opts, pos0, j));
                        assert(false);
                    }
                    assert(pos == pos0);
                } else {
                    assert(pos != pos0);
                    assert(forall|q: int| pos < q < n - 1 ==> !flag_occurrence(args, opts, q, j));
                    assert(m0[j] == spec_coerce(opts[j].value, token_after(args, pos)));
                    assert(m[j] == m0[j]);
                }
            }
        } else {
            assert(m == m0);
            assert(forall|j: int| !flag_occurrence(args, opts, pos0, j));
            assert forall|j: int| #[trigger]
                m.dom().contains(j) implies exists|pos: int|
                pos < n && flag_occurrence(args, opts, pos, j) by {
                assert(m0.dom().contains(j));
                let p = choose|p: int| p < n - 1 && flag_occurrence(args, opts, p, j);
                assert(p < n && flag_occurrence(args, opts, p, j));
            }
            assert forall|j: int|
                #![trigger m.dom().contains(j)]
                (exists|pos: int| pos < n && flag_occurrence(args, opts, pos, j)) implies m.dom()
                .contains(j) by {
                let p = choose|pos: int| pos < n && flag_occurrence(args, opts, pos, j);
                assert(p != pos0);
                assert(p < n - 1 && flag_occurrence(args, opts, p, j));
                assert(m0.dom().contains(j));
            }
            assert forall|j: int, pos: int|
                #![trigger flag_occurrence(args, opts, pos, j)]
                (pos < n && flag_occurrence(args, opts, pos, j) && (forall|q: int|
                    pos < q < n ==> !flag_occurrence(args, opts, q, j))) implies m[j]
                == spec_coerce(opts[j].value, token_after(args, pos)) by {
                assert(pos != pos0);
                assert(forall|q: int| pos < q < n - 1 ==> !flag_occurrence(args, opts, q, j));
                assert(m0[j] == spec_coerce(opts[j].value, token_after(args, pos)));
            }
        }
    }
}

/// The round-trip law of option parsing: the parsed mapping binds exactly
/// the descriptors named by some flag token of the argument vector, each to
/// the coercion of the token following its last occurrence. Positional
/// tokens and unknown flags never affect the mapping.
pub proof fn lemma_parse_opts_exact(args: Seq<Seq<char>>, opts: Seq<OptView>)
    ensures
        forall|j: int|
            #[trigger] spec_parse_opts(args, opts).dom().contains(j) <==> exists|pos: int|
                pos < args.len() && flag_occurrence(args, opts, pos, j),
        forall|j: int, pos: int|
            #![trigger flag_occurrence(args, opts, pos, j)]
            (pos < args.len() && flag_occurrence(args, opts, pos, j) && (forall|q: int|
                pos < q < args.len() ==> !flag_occurrence(args, opts, q, j))) ==> spec_parse_opts(
                args,
                opts,
            )[j] == spec_coerce(opts[j].value, token_after(args, pos)),
{
    lemma_parse_upto_exact(args, opts, args.len() as int);
}

/// A `Bool`-typed option whose flag is the last argument, with no value
/// token to follow, parses to `true`, whatever its declared default.
pub proof fn lemma_bool_flag_last(args: Seq<Seq<char>>, opts: Seq<OptView>, j: int, b: bool)
    requires
        args.len() > 0,
        flag_occurrence(args, opts, args.len() - 1, j),
        0 <= j < opts.len(),
        opts[j].value == OptValueView::Bool(b),
    ensures
        spec_parse_opts(args, opts).dom().contains(j),
        spec_parse_opts(args, opts)[j] == OptValueView::Bool(true),
{
    lemma_parse_opts_exact(args, opts);
    let pos = args.len() - 1;
    assert(flag_occurrence(args, opts, pos, j));
    assert(forall|q: int| pos < q < args.len() ==> !flag_occurrence(args, opts, q, j));
    assert(token_after(args, pos) is None);
}

/// An `Int64`-typed option whose last occurrence is followed by a token
/// that does not parse as a signed integer parses to the declared default
/// integer, not an error; so too when no token follows at all.
pub proof fn lemma_int_flag_fallback(
    args: Seq<Seq<char>>,
    opts: Seq<OptView>,
    j: int,
    pos: int,
    d: i64,
)
    requires
        flag_occurrence(args, opts, pos, j),
        forall|q: int| pos < q < args.len() ==> !flag_occurrence(args, opts, q, j),
        0 <= j < opts.len(),
        opts[j].value == OptValueView::Int64(d),
        pos + 1 < args.len() ==> spec_parse_i64(args[pos + 1]) is None,
    ensures
        spec_parse_opts(args, opts).dom().contains(j),
        spec_parse_opts(args, opts)[j] == OptValueView::Int64(d),
{
    lemma_parse_opts_exact(args, opts);
    assert(flag_occurrence(args, opts, pos, j));
}

} // verus!
