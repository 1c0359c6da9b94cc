//! Rendering the help listing: one line per registered path, the tokens
//! rejoined with single spaces, followed by an indented line per declared
//! option.

use vstd::prelude::*;

use crate::options::Opt;
use crate::options::OptView;

verus! {

/// The path tokens joined with single spaces.
pub open spec fn spec_join_sp(toks: Seq<Seq<char>>) -> Seq<char>
    decreases toks.len(),
{
    if toks.len() == 0 {
        Seq::empty()
    } else if toks.len() == 1 {
        toks[0]
    } else {
        spec_join_sp(toks.drop_last()) + seq![' '] + toks.last()
    }
}

/// The help line of one option: two spaces, the dashed short form, a comma,
/// the dashed long form, a colon, the description, a line break.
pub open spec fn spec_opt_line(o: OptView) -> Seq<char> {
    seq![' ', ' ', '-'] + o.short + seq![',', ' ', '-', '-'] + o.long + seq![':', ' ']
        + o.description + seq!['\n']
}

/// The help lines of a command's options, in declaration order.
pub open spec fn spec_opt_lines(opts: Seq<OptView>) -> Seq<char>
    decreases opts.len(),
{
    if opts.len() == 0 {
        Seq::empty()
    } else {
        spec_opt_lines(opts.drop_last()) + spec_opt_line(opts.last())
    }
}

/// One registry entry's help text: the path line, then its option lines.
pub open spec fn spec_help_entry(path: Seq<Seq<char>>, opts: Seq<OptView>) -> Seq<char> {
    spec_join_sp(path) + seq!['\n'] + spec_opt_lines(opts)
}

/// The concatenated help text of the registry entries, in order.
pub open spec fn spec_help_entries(entries: Seq<(Seq<Seq<char>>, Seq<OptView>)>) -> Seq<char>
    decreases entries.len(),
{
    if entries.len() == 0 {
        Seq::empty()
    } else {
        spec_help_entries(entries.drop_last()) + spec_help_entry(
            entries.last().0,
            entries.last().1,
        )
    }
}

/// The whole help listing: a header line, then each entry's text.
pub open spec fn spec_help(entries: Seq<(Seq<Seq<char>>, Seq<OptView>)>) -> Seq<char> {
    "Available commands:\n"@ + spec_help_entries(entries)
}

/// Joins path tokens with single spaces.
pub fn join_tokens(toks: &Vec<String>) -> (r: String)
    ensures
        r@ == spec_join_sp(toks.deep_view()),
{
    let ghost td = toks.deep_view();
    let mut r = String::new();
    let mut i: usize = 0;
    proof {
        assert(td.take(0) =~= Seq::<Seq<char>>::empty());
    }
    while i < toks.len()
        invariant
            i <= toks.len(),
            td == toks.deep_view(),
            r@ == spec_join_sp(td.take(i as int)),
        decreases toks.len() - i,
    {
        let ghost r0 = r@;
        if i > 0 {
            r.append(" ");
        }
        r.append(toks[i].as_str());
        proof {
            reveal_strlit(" ");
            assert(" "@ =~= seq![' ']);
            assert(td.take(i as int + 1).drop_last() =~= td.take(i as int));
            assert(td.take(i as int + 1).last() == td[i as int]);
            assert(td[i as int] == toks@[i as int]@);
            if i == 0 {
                assert(r@ =~= td[0]);
            } else {
                assert(r@ =~= spec_join_sp(td.take(i as int)) + seq![' '] + td[i as int]);
            }
        }
        i = i + 1;
    }
    proof {
        assert(td.take(toks.len() as int) =~= td);
    }
    r
}

/// Renders one option's help line.
pub fn render_opt_line(o: &Opt) -> (r: String)
    ensures
        r@ == spec_opt_line(o@),
{
    let mut r = String::from_str("  -");
    r.append(o.short.as_str());
    r.append(", --");
    r.append(o.long.as_str());
    r.append(": ");
    r.append(o.description.as_str());
    r.append("\n");
    proof {
        reveal_strlit("  -");
        reveal_strlit(", --");
        reveal_strlit(": ");
        reveal_strlit("\n");
        assert("  -"@ =~= seq![' ', ' ', '-']);
        assert(", --"@ =~= seq![',', ' ', '-', '-']);
        assert(": "@ =~= seq![':', ' ']);
        assert("\n"@ =~= seq!['\n']);
        assert(r@ =~= spec_opt_line(o@));
    }
    r
}

/// Renders one registry entry: the path line, then its option lines.
pub fn render_entry(path: &Vec<String>, opts: &Vec<Opt>) -> (r: String)
    ensures
        r@ == spec_help_entry(path.deep_view(), opts.deep_view()),
{
    let ghost od = opts.deep_view();
    let mut r = join_tokens(path);
    r.append("\n");
    proof {
        reveal_strlit("\n");
        assert("\n"@ =~= seq!['\n']);
        assert(od.take(0) =~= Seq::<OptView>::empty());
        assert(r@ =~= spec_join_sp(path.deep_view()) + seq!['\n'] + spec_opt_lines(od.take(0)));
    }
    let mut i: usize = 0;
    while i < opts.len()
        invariant
            i <= opts.len(),
            od == opts.deep_view(),
            r@ == spec_join_sp(path.deep_view()) + seq!['\n'] + spec_opt_lines(od.take(i as int)),
        decreases opts.len() - i,
    {
        let line = render_opt_line(&opts[i]);
        r.append(line.as_str());
        proof {
            assert(od.take(i as int + 1).drop_last() =~= od.take(i as int));
            assert(od.take(i as int + 1).last() == od[i as int]);
            assert(od[i as int] == opts@[i as int]@);
            assert(r@ =~= spec_join_sp(path.deep_view()) + seq!['\n'] + spec_opt_lines(
                od.take(i as int + 1),
            ));
        }
        i = i + 1;
    }
    proof {
        assert(od.take(opts.len() as int) =~= od);
    }
    r
}

} // verus!
