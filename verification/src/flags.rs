//! Matching flag tokens against option descriptors, and looking a parsed
//! value up by its flag text.

use vstd::prelude::*;

use crate::options::Opt;
use crate::options::OptValue;
use crate::options::OptValueView;
use crate::options::OptView;
use crate::text::str_eq;

verus! {

/// `arg` names the descriptor `o`: it equals `-` followed by the short form,
/// or `--` followed by the long form.
pub open spec fn matches_flag(arg: Seq<char>, o: OptView) -> bool {
    arg == seq!['-'] + o.short || arg == seq!['-', '-'] + o.long
}

/// The index of the first descriptor of `opts` that `arg` names.
pub open spec fn find_flag(opts: Seq<OptView>, arg: Seq<char>) -> Option<int>
    decreases opts.len(),
{
    if opts.len() == 0 {
        None
    } else if matches_flag(arg, opts[0]) {
        Some(0int)
    } else {
        match find_flag(opts.drop_first(), arg) {
            Some(j) => Some(j + 1),
            None => None,
        }
    }
}

/// [`find_flag`] returns the first matching index: a match where it exists,
/// preceded by non-matches; and no index matches where it returns nothing.
pub proof fn lemma_find_flag_first(opts: Seq<OptView>, arg: Seq<char>)
    ensures
        match find_flag(opts, arg) {
            Some(j) => 0 <= j < opts.len() && matches_flag(arg, opts[j]) && (forall|k: int|
                0 <= k < j ==> !matches_flag(arg, #[trigger] opts[k])),
            None => forall|k: int| 0 <= k < opts.len() ==> !matches_flag(arg, #[trigger] opts[k]),
        },
    decreases opts.len(),
{
    if opts.len() > 0 && !matches_flag(arg, opts[0]) {
        lemma_find_flag_first(opts.drop_first(), arg);
        assert(forall|k: int|
            1 <= k < opts.len() ==> #[trigger] opts[k] == opts.drop_first()[k - 1]);
    }
}

/// `j` is the first index of `opts` holding its descriptor value.
pub open spec fn first_of_its_kind(opts: Seq<OptView>, j: int) -> bool {
    forall|k: int| 0 <= k < j ==> #[trigger] opts[k] != opts[j]
}

/// A descriptor index found by [`find_flag`] is the first index holding
/// that descriptor value: a later duplicate of an earlier descriptor is
/// never the result, since any token naming it names the earlier one too.
pub proof fn lemma_find_flag_canonical(opts: Seq<OptView>, arg: Seq<char>)
    ensures
        match find_flag(opts, arg) {
            Some(j) => first_of_its_kind(opts, j),
            None => true,
        },
{
    lemma_find_flag_first(opts, arg);
    match find_flag(opts, arg) {
        Some(j) => {
            assert forall|k: int| 0 <= k < j implies #[trigger] opts[k] != opts[j] by {
                if opts[k] == opts[j] {
                    assert(matches_flag(arg, opts[k]));
                }
            }
        },
        None => {},
    }
}

/// The flag text `-` + short form of `o`.
pub fn dash_short(o: &Opt) -> (r: String)
    ensures
        r@ == seq!['-'] + o@.short,
{
    let r = String::from_str("-").concat(o.short.as_str());
    proof {
        reveal_strlit("-");
        assert("-"@ =~= seq!['-']);
    }
    r
}

/// The flag text `--` + long form of `o`.
pub fn dash_long(o: &Opt) -> (r: String)
    ensures
        r@ == seq!['-', '-'] + o@.long,
{
    let r = String::from_str("--").concat(o.long.as_str());
    proof {
        reveal_strlit("--");
        assert("--"@ =~= seq!['-', '-']);
    }
    r
}

/// Finds the first declared descriptor that the token `arg` names.
pub fn find_matching_opt(opts: &Vec<Opt>, arg: &str) -> (r: Option<usize>)
    ensures
        match r {
            Some(j) => j < opts.len() && find_flag(opts.deep_view(), arg@) == Some(j as int),
            None => find_flag(opts.deep_view(), arg@) is None,
        },
{
    let mut j: usize = 0;
    while j < opts.len()
        invariant
            j <= opts.len(),
            forall|k: int| 0 <= k < j ==> !matches_flag(arg@, #[trigger] opts.deep_view()[k]),
        decreases opts.len() - j,
    {
        let ds = dash_short(&opts[j]);
        let dl = dash_long(&opts[j]);
        if str_eq(arg, ds.as_str()) || str_eq(arg, dl.as_str()) {
            proof {
                assert(opts.deep_view()[j as int] == opts@[j as int]@);
                assert(matches_flag(arg@, opts.deep_view()[j as int]));
                lemma_find_flag_first(opts.deep_view(), arg@);
            }
            return Some(j);
        }
        j = j + 1;
    }
    proof {
        lemma_find_flag_first(opts.deep_view(), arg@);
    }
    None
}

/// The value of the first entry of `entries` whose descriptor's short or
/// long flag text, dash prefix included, equals `key`.
pub open spec fn spec_find_opt(
    entries: Seq<(OptView, OptValueView)>,
    key: Seq<char>,
) -> Option<OptValueView>
    decreases entries.len(),
{
    if entries.len() == 0 {
        None
    } else if matches_flag(key, entries[0].0) {
        Some(entries[0].1)
    } else {
        spec_find_opt(entries.drop_first(), key)
    }
}

/// Looks a parsed value up by flag text: returns the value of the first
/// entry whose descriptor's dashed short or long form equals `key`, and
/// nothing when no entry's flags match.
pub fn find_opt(opts: Vec<(Opt, OptValue)>, key: String) -> (r: Option<OptValue>)
    ensures
        match r {
            Some(v) => spec_find_opt(opts.deep_view(), key@) == Some(v@),
            None => spec_find_opt(opts.deep_view(), key@) is None,
        },
{
    let ghost entries = opts.deep_view();
    let mut k: usize = 0;
    proof {
        assert(entries.skip(0) =~= entries);
    }
    while k < opts.len()
        invariant
            k <= opts.len(),
            entries == opts.deep_view(),
            spec_find_opt(entries.skip(k as int), key@) == spec_find_opt(entries, key@),
        decreases opts.len() - k,
    {
        proof {
            assert(entries.skip(k as int)[0] == entries[k as int]);
            assert(entries.skip(k as int).drop_first() =~= entries.skip(k as int + 1));
        }
        let entry = &opts[k];
        let dl = dash_long(&entry.0);
        if str_eq(key.as_str(), dl.as_str()) {
            return Some(entry.1.clone());
        }
        let ds = dash_short(&entry.0);
        if str_eq(key.as_str(), ds.as_str()) {
            return Some(entry.1.clone());
        }
        k = k + 1;
    }
    proof {
        assert(entries.skip(opts.len() as int) =~= Seq::<(OptView, OptValueView)>::empty());
    }
    None
}

} // verus!
