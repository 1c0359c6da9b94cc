//! The command registry and dispatcher.
//!
//! A [`CommandManager`] owns registered commands keyed by their multi-token
//! path. Resolution strips flag-like tokens from the argument vector and
//! scans the registered paths in registration order, a deterministic policy:
//! the first registered path that is a token-wise prefix of the stripped
//! arguments wins.

use vstd::prelude::*;
use vstd::pervasive::VecAdditionalExecFns;

use crate::coerce::coerce;
use crate::coerce::spec_coerce;
use crate::coerce::token_view;
use crate::flags::find_flag;
use crate::flags::find_matching_opt;
use crate::flags::first_of_its_kind;
use crate::flags::lemma_find_flag_canonical;
use crate::help::render_entry;
use crate::help::spec_help;
use crate::help::spec_help_entries;
use crate::help::spec_help_entry;
use crate::options::Opt;
use crate::options::OptValue;
use crate::options::OptValueView;
use crate::options::OptView;
use crate::text::spec_split_ws;
use crate::text::split_whitespace_tokens;
use crate::text::starts_with_dash;
use crate::text::str_eq;
use crate::text::token_starts_with_dash;

verus! {

/// The opaque, payload-free failure signal: dispatch found no matching
/// command, or a command reported its own failure.
#[derive(Debug, Clone, Copy)]
pub struct CommandError {}

impl CommandError {
    /// Builds the failure signal.
    pub fn new() -> (r: CommandError)
        ensures
            r == (CommandError {  }),
    {
        CommandError {  }
    }

    /// The error's textual form.
    pub fn message(&self) -> (r: String)
        ensures
            r@ == "CommandError"@,
    {
        String::from_str("CommandError")
    }
}

/// A registered sub-command: it declares the option surface the dispatcher
/// recognizes for it, and consumes the full argument vector together with
/// the resolved options mapping. Whatever `run` does besides returning its
/// result is the command's own business and opaque to the dispatcher.
pub trait Command {
    /// The options the dispatcher should recognize for this command; an
    /// empty list means any flag-like token is simply ignored.
    fn opts(&self) -> Vec<Opt> {
        Vec::new()
    }

    /// Consumes the full original argument vector and the resolved options.
    fn run(&self, args: Vec<String>, opts: Vec<(Opt, OptValue)>) -> Result<(), CommandError>;
}

/// The registry and dispatcher: registered commands, keyed by their
/// whitespace-split path, in registration order, each path held once.
pub struct CommandManager<C> {
    commands: Vec<(Vec<String>, C)>,
}

/// The subsequence of `args` whose tokens do not begin with a dash: flags
/// and their value tokens are stripped before path matching.
pub open spec fn spec_filter_positional(args: Seq<Seq<char>>) -> Seq<Seq<char>>
    decreases args.len(),
{
    if args.len() == 0 {
        Seq::empty()
    } else {
        let rest = spec_filter_positional(args.drop_last());
        if starts_with_dash(args.last()) {
            rest
        } else {
            rest.push(args.last())
        }
    }
}

/// `key` is a token-wise prefix of the stripped arguments `fargs`.
pub open spec fn path_matches(key: Seq<Seq<char>>, fargs: Seq<Seq<char>>) -> bool {
    key.len() <= fargs.len() && (forall|i: int| 0 <= i < key.len() ==> key[i] == fargs[i])
}

/// The index of the first registered path that matches `fargs`.
pub open spec fn first_match(paths: Seq<Seq<Seq<char>>>, fargs: Seq<Seq<char>>) -> Option<int>
    decreases paths.len(),
{
    if paths.len() == 0 {
        None
    } else if path_matches(paths[0], fargs) {
        Some(0int)
    } else {
        match first_match(paths.drop_first(), fargs) {
            Some(i) => Some(i + 1),
            None => None,
        }
    }
}

/// [`first_match`] returns the first matching path: a match where it exists,
/// preceded by non-matches; and no path matches where it returns nothing.
pub proof fn lemma_first_match_first(paths: Seq<Seq<Seq<char>>>, fargs: Seq<Seq<char>>)
    ensures
        match first_match(paths, fargs) {
            Some(i) => 0 <= i < paths.len() && path_matches(paths[i], fargs) && (forall|k: int|
                0 <= k < i ==> !path_matches(#[trigger] paths[k], fargs)),
            None => forall|k: int| 0 <= k < paths.len() ==> !path_matches(#[trigger] paths[k], fargs),
        },
    decreases paths.len(),
{
    if paths.len() > 0 && !path_matches(paths[0], fargs) {
        lemma_first_match_first(paths.drop_first(), fargs);
        assert(forall|k: int|
            1 <= k < paths.len() ==> #[trigger] paths[k] == paths.drop_first()[k - 1]);
    }
}

/// A path occurs in `paths`.
pub open spec fn has_path(paths: Seq<Seq<Seq<char>>>, p: Seq<Seq<char>>) -> bool {
    exists|i: int| 0 <= i < paths.len() && paths[i] == p
}

/// The value token for the flag at `pos`: the next token, or nothing when
/// the flag is the last argument.
pub open spec fn token_after(args: Seq<Seq<char>>, pos: int) -> Option<Seq<char>> {
    if pos + 1 < args.len() {
        Some(args[pos + 1])
    } else {
        None
    }
}

/// The options mapping after reading the first `n` argument positions, as a
/// map from descriptor index to coerced value: a flag token naming a
/// declared descriptor binds it to the coercion of the following token, a
/// later occurrence overwriting an earlier one; any other token is ignored.
pub open spec fn parse_upto(args: Seq<Seq<char>>, opts: Seq<OptView>, n: int) -> Map<
    int,
    OptValueView,
>
    decreases n,
{
    if n <= 0 {
        Map::empty()
    } else {
        let m = parse_upto(args, opts, n - 1);
        let pos = n - 1;
        if !starts_with_dash(args[pos]) {
            m
        } else {
            match find_flag(opts, args[pos]) {
                None => m,
                Some(j) => m.insert(j, spec_coerce(opts[j].value, token_after(args, pos))),
            }
        }
    }
}

/// The options mapping extracted from the whole argument vector.
pub open spec fn spec_parse_opts(args: Seq<Seq<char>>, opts: Seq<OptView>) -> Map<
    int,
    OptValueView,
> {
    parse_upto(args, opts, args.len() as int)
}

/// Entry `k` of a parsed mapping realizes key `j` of the specification map:
/// it pairs the descriptor at index `j` with the value the map gives it.
pub open spec fn entry_realizes(
    entries: Seq<(OptView, OptValueView)>,
    k: int,
    opts: Seq<OptView>,
    m: Map<int, OptValueView>,
    j: int,
) -> bool {
    &&& 0 <= k < entries.len()
    &&& 0 <= j < opts.len()
    &&& m.dom().contains(j)
    &&& entries[k].0 == opts[j]
    &&& entries[k].1 == m[j]
}

/// Entry `k` realizes some mapped descriptor index.
pub open spec fn entry_is_realized(
    entries: Seq<(OptView, OptValueView)>,
    opts: Seq<OptView>,
    m: Map<int, OptValueView>,
    k: int,
) -> bool {
    exists|j: int| entry_realizes(entries, k, opts, m, j)
}

/// The parsed entries are exactly the specification mapping: every entry
/// realizes some mapped descriptor, every mapped descriptor is realized,
/// and no descriptor is held twice. The order of the entries is left open.
pub open spec fn entries_match_map(
    entries: Seq<(OptView, OptValueView)>,
    opts: Seq<OptView>,
    m: Map<int, OptValueView>,
) -> bool {
    &&& forall|k: int|
        0 <= k < entries.len() ==> #[trigger] entry_is_realized(entries, opts, m, k)
    &&& forall|j: int|
        #[trigger] m.dom().contains(j) ==> exists|k: int| entry_realizes(entries, k, opts, m, j)
    &&& forall|k1: int, k2: int|
        #![trigger entries[k1].0, entries[k2].0]
        0 <= k1 < entries.len() && 0 <= k2 < entries.len() && k1 != k2 ==> entries[k1].0
            != entries[k2].0
}

/// Entry `k` of the parsed entries is sound bookkeeping: `idxs[k]` is a
/// declared, mapped, first-of-its-kind descriptor index whose descriptor and
/// value the entry holds.
pub open spec fn entry_ok(
    entries: Seq<(OptView, OptValueView)>,
    idxs: Seq<int>,
    opts: Seq<OptView>,
    m: Map<int, OptValueView>,
    k: int,
) -> bool {
    &&& 0 <= idxs[k] < opts.len()
    &&& m.dom().contains(idxs[k])
    &&& entries[k].0 == opts[idxs[k]]
    &&& entries[k].1 == m[idxs[k]]
    &&& first_of_its_kind(opts, idxs[k])
}

/// The parsed entries realize the map `m` exactly, with `idxs` recording
/// which descriptor index each entry realizes.
pub open spec fn parse_inv(
    entries: Seq<(OptView, OptValueView)>,
    idxs: Seq<int>,
    opts: Seq<OptView>,
    m: Map<int, OptValueView>,
) -> bool {
    &&& idxs.len() == entries.len()
    &&& forall|k: int| 0 <= k < entries.len() ==> #[trigger] entry_ok(entries, idxs, opts, m, k)
    &&& forall|k1: int, k2: int|
        0 <= k1 < entries.len() && 0 <= k2 < entries.len() && k1 != k2 ==> #[trigger] idxs[k1]
            != #[trigger] idxs[k2]
    &&& forall|j: int|
        #[trigger] m.dom().contains(j) ==> exists|k: int| 0 <= k < idxs.len() && idxs[k] == j
}

/// The position of the first parsed entry holding the descriptor `d`.
fn position_of_descriptor(entries: &Vec<(Opt, OptValue)>, d: &Opt) -> (r: Option<usize>)
    ensures
        match r {
            Some(k) => k < entries.len() && entries.deep_view()[k as int].0 == d@,
            None => forall|k: int|
                0 <= k < entries.deep_view().len() ==> #[trigger] entries.deep_view()[k].0 != d@,
        },
{
    let mut k: usize = 0;
    while k < entries.len()
        invariant
            k <= entries.len(),
            forall|q: int| 0 <= q < k ==> #[trigger] entries.deep_view()[q].0 != d@,
        decreases entries.len() - k,
    {
        if entries[k].0 == *d {
            assert(entries.deep_view()[k as int].0 == d@);
            return Some(k);
        }
        assert(entries.deep_view()[k as int].0 != d@);
        k = k + 1;
    }
    None
}

/// The arguments ask for the help listing: the vector is empty or begins
/// with `--help` or `-h`.
pub open spec fn is_help_invocation(args: Seq<Seq<char>>) -> bool {
    args.len() == 0 || args[0] == "--help"@ || args[0] == "-h"@
}

/// Token-wise equality of two paths.
fn path_eq(a: &Vec<String>, b: &Vec<String>) -> (r: bool)
    ensures
        r == (a.deep_view() == b.deep_view()),
{
    if a.len() != b.len() {
        assert(a.deep_view().len() != b.deep_view().len());
        return false;
    }
    let mut i: usize = 0;
    while i < a.len()
        invariant
            i <= a.len(),
            a.len() == b.len(),
            forall|k: int| 0 <= k < i ==> a.deep_view()[k] == b.deep_view()[k],
        decreases a.len() - i,
    {
        if !str_eq(a[i].as_str(), b[i].as_str()) {
            assert(a.deep_view()[i as int] != b.deep_view()[i as int]);
            return false;
        }
        i = i + 1;
    }
    proof {
        assert(a.deep_view() =~= b.deep_view());
    }
    true
}

/// `key` is a token-wise prefix of `fargs`.
fn prefix_matches(key: &Vec<String>, fargs: &Vec<String>) -> (r: bool)
    ensures
        r == path_matches(key.deep_view(), fargs.deep_view()),
{
    if key.len() > fargs.len() {
        return false;
    }
    let mut i: usize = 0;
    while i < key.len()
        invariant
            i <= key.len(),
            key.len() <= fargs.len(),
            forall|k: int| 0 <= k < i ==> key.deep_view()[k] == fargs.deep_view()[k],
        decreases key.len() - i,
    {
        if !str_eq(key[i].as_str(), fargs[i].as_str()) {
            assert(key.deep_view()[i as int] != fargs.deep_view()[i as int]);
            return false;
        }
        i = i + 1;
    }
    true
}

/// Keeps only the tokens of `args` that do not begin with a dash.
fn filter_positional(args: &Vec<String>) -> (r: Vec<String>)
    ensures
        r.deep_view() == spec_filter_positional(args.deep_view()),
{
    let mut r: Vec<String> = Vec::new();
    let mut i: usize = 0;
    proof {
        assert(args.deep_view().take(0) =~= Seq::<Seq<char>>::empty());
        assert(r.deep_view() =~= Seq::<Seq<char>>::empty());
    }
    while i < args.len()
        invariant
            i <= args.len(),
            r.deep_view() == spec_filter_positional(args.deep_view().take(i as int)),
        decreases args.len() - i,
    {
        let ghost prefix = args.deep_view().take(i as int);
        let ghost prefix1 = args.deep_view().take(i as int + 1);
        proof {
            assert(prefix1.drop_last() =~= prefix);
            assert(prefix1.last() == args.deep_view()[i as int]);
        }
        let ghost r0 = r.deep_view();
        if !token_starts_with_dash(args[i].as_str()) {
            r.push(args[i].clone());
            proof {
                assert(r.deep_view() =~= r0.push(args.deep_view()[i as int]));
            }
        }
        i = i + 1;
    }
    proof {
        assert(args.deep_view().take(args.len() as int) =~= args.deep_view());
    }
    r
}

impl<C> CommandManager<C> {
    /// The registered paths, each a sequence of tokens, in registration
    /// order.
    pub closed spec fn paths(&self) -> Seq<Seq<Seq<char>>> {
        Seq::new(self.commands@.len() as nat, |i: int| self.commands@[i].0.deep_view())
    }

    /// The command registered under the path at index `i`.
    pub closed spec fn command_at(&self, i: int) -> C {
        self.commands@[i].1
    }

    /// Registry well-formedness: no path is held twice.
    pub open spec fn wf(&self) -> bool {
        forall|i: int, j: int|
            #![trigger self.paths()[i], self.paths()[j]]
            0 <= i < self.paths().len() && 0 <= j < self.paths().len() && i != j
                ==> self.paths()[i] != self.paths()[j]
    }

    /// Builds an empty registry.
    pub fn new() -> (r: CommandManager<C>)
        ensures
            r.paths() == Seq::<Seq<Seq<char>>>::empty(),
            r.wf(),
    {
        let r = CommandManager { commands: Vec::new() };
        proof {
            assert(r.paths() =~= Seq::<Seq<Seq<char>>>::empty());
        }
        r
    }

    /// Registers `command` under `name`, split on white space into a path.
    /// A path registered again silently replaces the prior entry, in place;
    /// a new path is appended.
    pub fn add_command(&mut self, name: String, command: C)
        requires
            old(self).wf(),
        ensures
            final(self).wf(),
            ({
                let toks = spec_split_ws(name@);
                let ps = old(self).paths();
                &&& (has_path(ps, toks) ==> final(self).paths() == ps)
                &&& (!has_path(ps, toks) ==> final(self).paths() == ps.push(toks))
                &&& forall|i: int|
                    0 <= i < ps.len() && ps[i] != toks ==> final(self).command_at(i)
                        == old(self).command_at(i)
                &&& forall|i: int|
                    0 <= i < final(self).paths().len() && final(self).paths()[i] == toks
                        ==> final(self).command_at(i) == command
            }),
    {
        let toks = split_whitespace_tokens(name.as_str());
        let ghost tv = toks.deep_view();
        let ghost ps = self.paths();
        match self.find_path_index(&toks) {
            Some(i) => {
                let ghost old_cmds = self.commands@;
                proof {
                    assert(has_path(ps, tv));
                }
                self.commands.set(i, (toks, command));
                proof {
                    assert(self.paths() =~= ps.update(i as int, tv));
                    assert(ps.update(i as int, tv) =~= ps);
                    assert(self.paths() == ps);
                    assert forall|k: int|
                        0 <= k < ps.len() && ps[k] != tv implies self.command_at(k)
                        == old_cmds[k].1 by {
                        assert(k != i);
                    }
                    assert forall|k: int|
                        0 <= k < self.paths().len() && self.paths()[k] == tv implies self
                            .command_at(k) == command by {
                        if k != i {
                            assert(ps[k] != ps[i as int]);
                            assert(false);
                        }
                    }
                }
            },
            None => {
                self.commands.push((toks, command));
                proof {
                    assert(self.paths() =~= ps.push(tv));
                    assert forall|k: int|
                        0 <= k < self.paths().len() && self.paths()[k] == tv implies self
                            .command_at(k) == command by {
                        if k < ps.len() {
                            assert(ps[k] == tv);
                            assert(has_path(ps, tv));
                            assert(false);
                        }
                    }
                    assert forall|a: int, b: int|
                        #![trigger self.paths()[a], self.paths()[b]]
                        0 <= a < self.paths().len() && 0 <= b < self.paths().len() && a
                            != b implies self.paths()[a] != self.paths()[b] by {
                        if a < ps.len() && b < ps.len() {
                            assert(ps[a] != ps[b]);
                        } else if a < ps.len() {
                            assert(!(ps[a] == tv)) by {
                                if ps[a] == tv {
                                    assert(has_path(ps, tv));
                                }
                            }
                        } else {
                            assert(!(ps[b] == tv)) by {
                                if ps[b] == tv {
                                    assert(has_path(ps, tv));
                                }
                            }
                        }
                    }
                }
            },
        }
    }

    /// The index at which `toks` is registered, if it is.
    fn find_path_index(&self, toks: &Vec<String>) -> (r: Option<usize>)
        ensures
            match r {
                Some(i) => i < self.paths().len() && self.paths()[i as int] == toks.deep_view(),
                None => !has_path(self.paths(), toks.deep_view()),
            },
    {
        let ghost ps = self.paths();
        let ghost tv = toks.deep_view();
        let mut i: usize = 0;
        while i < self.commands.len()
            invariant
                i <= self.commands.len(),
                tv == toks.deep_view(),
                ps == self.paths(),
                forall|k: int| 0 <= k < i ==> ps[k] != tv,
            decreases self.commands.len() - i,
        {
            if path_eq(&self.commands[i].0, toks) {
                proof {
                    assert(ps[i as int] == tv);
                }
                return Some(i);
            }
            i = i + 1;
        }
        None
    }

    /// Extracts the declared options from the argument vector, with
    /// best-effort coercion: a flag token naming a declared descriptor binds
    /// it to the coercion of the following token, a later occurrence of the
    /// same descriptor overwriting an earlier one; unknown flags and
    /// positional tokens are ignored; parsing never fails.
    pub fn parse_opts(&self, args: &Vec<String>, opts: &Vec<Opt>) -> (r: Vec<(Opt, OptValue)>)
        ensures
            entries_match_map(
                r.deep_view(),
                opts.deep_view(),
                spec_parse_opts(args.deep_view(), opts.deep_view()),
            ),
    {
        let ghost argsd = args.deep_view();
        let ghost optsd = opts.deep_view();
        let mut result: Vec<(Opt, OptValue)> = Vec::new();
        let ghost mut idxs: Seq<int> = Seq::empty();
        let mut pos: usize = 0;
        proof {
            assert(result.deep_view() =~= Seq::<(OptView, OptValueView)>::empty());
        }
        while pos < args.len()
            invariant
                pos <= args.len(),
                argsd == args.deep_view(),
                optsd == opts.deep_view(),
                parse_inv(result.deep_view(), idxs, optsd, parse_upto(argsd, optsd, pos as int)),
            decreases args.len() - pos,
        {
            let ghost m0 = parse_upto(argsd, optsd, pos as int);
            let ghost m1 = parse_upto(argsd, optsd, pos as int + 1);
            proof {
                assert(argsd[pos as int] == args@[pos as int]@);
            }
            if token_starts_with_dash(args[pos].as_str()) {
                match find_matching_opt(opts, args[pos].as_str()) {
                    Some(j) => {
                        proof {
                            lemma_find_flag_canonical(optsd, argsd[pos as int]);
                        }
                        let tok: Option<&String> = if pos + 1 < args.len() {
                            Some(&args[pos + 1])
                        } else {
                            None
                        };
                        let v = coerce(&opts[j].value, tok);
                        let ghost vv = spec_coerce(
                            optsd[j as int].value,
                            token_after(argsd, pos as int),
                        );
                        proof {
                            if pos + 1 < args.len() {
                                assert(argsd[pos as int + 1] == args@[pos as int + 1]@);
                            }
                            assert(opts@[j as int]@ == optsd[j as int]);
                            assert(v@ == vv);
                            assert(m1 == m0.insert(j as int, vv));
                        }
                        let d = opts[j].clone();
                        let ghost r0 = result.deep_view();
                        match position_of_descriptor(&result, &d) {
                            Some(k) => {
                                proof {
                                    assert(entry_ok(r0, idxs, optsd, m0, k as int));
                                    assert(optsd[idxs[k as int]] == optsd[j as int]);
                                    if idxs[k as int] != j as int {
                                        if idxs[k as int] < j {
                                            assert(first_of_its_kind(optsd, j as int));
                                            assert(optsd[idxs[k as int]] != optsd[j as int]);
                                        } else {
                                            assert(first_of_its_kind(optsd, idxs[k as int]));
                                            assert(optsd[j as int] != optsd[idxs[k as int]]);
                                        }
                                        assert(false);
                                    }
                                }
                                result.set(k, (d, v));
                                proof {
                                    let e1 = result.deep_view();
                                    assert(e1 =~= r0.update(k as int, (optsd[j as int], vv)));
                                    assert forall|q: int|
                                        0 <= q < e1.len() implies #[trigger] entry_ok(
                                        e1,
                                        idxs,
                                        optsd,
                                        m1,
                                        q,
                                    ) by {
                                        assert(entry_ok(r0, idxs, optsd, m0, q));
                                        if q != k {
                                            assert(idxs[q] != idxs[k as int]);
                                        }
                                    }
                                    assert forall|jj: int| #[trigger]
                                        m1.dom().contains(jj) implies exists|q: int|
                                        0 <= q < idxs.len() && idxs[q] == jj by {
                                        if jj == j {
                                            assert(idxs[k as int] == jj);
                                        } else {
                                            assert(m0.dom().contains(jj));
                                        }
                                    }
                                }
                            },
                            None => {
                                proof {
                                    if m0.dom().contains(j as int) {
                                        let q = choose|q: int|
                                            0 <= q < idxs.len() && idxs[q] == j as int;
                                        assert(entry_ok(r0, idxs, optsd, m0, q));
                                        assert(r0[q].0 == optsd[j as int]);
                                        assert(false);
                                    }
                                }
                                result.push((d, v));
                                proof {
                                    let ghost idxs0 = idxs;
                                    idxs = idxs.push(j as int);
                                    let e1 = result.deep_view();
                                    assert(e1 =~= r0.push((optsd[j as int], vv)));
                                    assert forall|q: int|
                                        0 <= q < e1.len() implies #[trigger] entry_ok(
                                        e1,
                                        idxs,
                                        optsd,
                                        m1,
                                        q,
                                    ) by {
                                        if q < r0.len() {
                                            assert(entry_ok(r0, idxs0, optsd, m0, q));
                                            assert(idxs[q] == idxs0[q]);
                                            assert(idxs[q] != j as int);
                                        } else {
                                            assert(idxs[q] == j as int);
                                        }
                                    }
                                    assert forall|q1: int, q2: int|
                                        0 <= q1 < e1.len() && 0 <= q2 < e1.len() && q1
                                            != q2 implies #[trigger] idxs[q1] != #[trigger] idxs[q2] by {
                                        if q1 < r0.len() && q2 < r0.len() {
                                            assert(idxs0[q1] != idxs0[q2]);
                                        } else if q1 < r0.len() {
                                            assert(entry_ok(r0, idxs0, optsd, m0, q1));
                                            assert(m0.dom().contains(idxs0[q1]));
                                        } else if q2 < r0.len() {
                                            assert(entry_ok(r0, idxs0, optsd, m0, q2));
                                            assert(m0.dom().contains(idxs0[q2]));
                                        }
                                    }
                                    assert forall|jj: int| #[trigger]
                                        m1.dom().contains(jj) implies exists|q: int|
                                        0 <= q < idxs.len() && idxs[q] == jj by {
                                        if jj == j {
                                            assert(idxs[idxs.len() - 1] == jj);
                                        } else {
                                            assert(m0.dom().contains(jj));
                                            let q = choose|q: int|
                                                0 <= q < idxs0.len() && idxs0[q] == jj;
                                            assert(idxs[q] == jj);
                                        }
                                    }
                                }
                            },
                        }
                    },
                    None => {
                        proof {
                            assert(m1 == m0);
                        }
                    },
                }
            } else {
                proof {
                    assert(m1 == m0);
                }
            }
            pos = pos + 1;
        }
        proof {
            let m = spec_parse_opts(argsd, optsd);
            let e = result.deep_view();
            assert(m == parse_upto(argsd, optsd, args.len() as int));
            assert forall|k: int| 0 <= k < e.len() implies #[trigger] entry_is_realized(
                e,
                optsd,
                m,
                k,
            ) by {
                assert(entry_ok(e, idxs, optsd, m, k));
                assert(entry_realizes(e, k, optsd, m, idxs[k]));
            }
            assert forall|j: int| #[trigger] m.dom().contains(j) implies exists|k: int|
                entry_realizes(e, k, optsd, m, j) by {
                let k = choose|k: int| 0 <= k < idxs.len() && idxs[k] == j;
                assert(entry_ok(e, idxs, optsd, m, k));
                assert(entry_realizes(e, k, optsd, m, j));
            }
            assert forall|k1: int, k2: int|
                #![trigger e[k1].0, e[k2].0]
                0 <= k1 < e.len() && 0 <= k2 < e.len() && k1 != k2 implies e[k1].0 != e[k2].0 by {
                assert(entry_ok(e, idxs, optsd, m, k1));
                assert(entry_ok(e, idxs, optsd, m, k2));
                assert(idxs[k1] != idxs[k2]);
                if idxs[k1] < idxs[k2] {
                    assert(first_of_its_kind(optsd, idxs[k2]));
                    assert(optsd[idxs[k1]] != optsd[idxs[k2]]);
                } else {
                    assert(first_of_its_kind(optsd, idxs[k1]));
                    assert(optsd[idxs[k2]] != optsd[idxs[k1]]);
                }
            }
        }
        result
    }

    /// Resolves the argument vector to the first registered command whose
    /// path is a token-wise prefix of the arguments with flag-like tokens
    /// stripped; nothing when no registered path matches.
    pub fn get_command(&self, args: &Vec<String>) -> (r: Option<&C>)
        ensures
            ({
                let m = first_match(self.paths(), spec_filter_positional(args.deep_view()));
                match r {
                    Some(c) => match m {
                        Some(i) => *c == self.command_at(i),
                        None => false,
                    },
                    None => m is None,
                }
            }),
    {
        let fargs = filter_positional(args);
        let ghost fa = spec_filter_positional(args.deep_view());
        let mut idx: usize = 0;
        while idx < self.commands.len()
            invariant
                idx <= self.commands.len(),
                fargs.deep_view() == fa,
                fa == spec_filter_positional(args.deep_view()),
                forall|k: int| 0 <= k < idx ==> !path_matches(#[trigger] self.paths()[k], fa),
            decreases self.commands.len() - idx,
        {
            if prefix_matches(&self.commands[idx].0, &fargs) {
                proof {
                    assert(self.paths()[idx as int] == self.commands@[idx as int].0.deep_view());
                    lemma_first_match_first(self.paths(), fa);
                }
                return Some(&self.commands[idx].1);
            }
            idx = idx + 1;
        }
        proof {
            lemma_first_match_first(self.paths(), fa);
        }
        None
    }
}

/// Relies on `io::Write::write_all` for `Stdout`: puts the given text,
/// computed by verified code, on standard output.
#[verifier::external_body]
fn print_text(s: &str) {
    let _ = std::io::Write::write_all(&mut std::io::stdout(), s.as_bytes());
}

impl<C: Command> CommandManager<C> {
    /// The help listing: a header, then one line per registered path with an
    /// indented line per option the command declares. What each command
    /// declares is its own business, so the option lists are existentially
    /// quantified; the paths and the layout are pinned down.
    pub fn help_text(&self) -> (r: String)
        ensures
            exists|entries: Seq<(Seq<Seq<char>>, Seq<OptView>)>|
                entries.len() == self.paths().len() && (forall|q: int|
                    0 <= q < entries.len() ==> (#[trigger] entries[q]).0 == self.paths()[q]) && r@
                    == spec_help(entries),
    {
        let mut r = String::from_str("Available commands:\n");
        let ghost mut ents: Seq<(Seq<Seq<char>>, Seq<OptView>)> = Seq::empty();
        let mut i: usize = 0;
        proof {
            assert(spec_help_entries(ents) =~= Seq::<char>::empty());
            assert(r@ =~= spec_help(ents));
        }
        while i < self.commands.len()
            invariant
                i <= self.commands.len(),
                ents.len() == i,
                forall|q: int| 0 <= q < i ==> (#[trigger] ents[q]).0 == self.paths()[q],
                r@ == spec_help(ents),
            decreases self.commands.len() - i,
        {
            let copts = self.commands[i].1.opts();
            let entry = render_entry(&self.commands[i].0, &copts);
            r.append(entry.as_str());
            proof {
                let ghost ents0 = ents;
                ents = ents.push((self.paths()[i as int], copts.deep_view()));
                assert(ents.drop_last() =~= ents0);
                assert(self.paths()[i as int] == self.commands@[i as int].0.deep_view());
                assert(spec_help_entries(ents) == spec_help_entries(ents0) + spec_help_entry(
                    self.paths()[i as int],
                    copts.deep_view(),
                ));
                assert(r@ =~= spec_help(ents));
            }
            i = i + 1;
        }
        proof {
            assert(ents.len() == self.paths().len());
        }
        r
    }

    /// Renders the help listing and puts it on standard output.
    fn print_help(&self) {
        let text = self.help_text();
        print_text(text.as_str());
    }

    /// The top-level entry point. An empty argument vector, or `--help` or
    /// `-h` in front, prints the help listing and succeeds without
    /// dispatching. Otherwise the first matching registered command is
    /// resolved; with no match, dispatch fails. The resolved command is
    /// invoked with the full original argument vector and its parsed
    /// options, and its own result is returned unchanged.
    pub fn run(&self, args: Vec<String>) -> (r: Result<(), CommandError>)
        ensures
            is_help_invocation(args.deep_view()) ==> r is Ok,
            !is_help_invocation(args.deep_view()) && first_match(
                self.paths(),
                spec_filter_positional(args.deep_view()),
            ) is None ==> r is Err,
    {
        if args.len() == 0 {
            self.print_help();
            return Ok(());
        }
        proof {
            assert(args.deep_view()[0] == args@[0]@);
        }
        if str_eq(args[0].as_str(), "--help") || str_eq(args[0].as_str(), "-h") {
            self.print_help();
            return Ok(());
        }
        let command = match self.get_command(&args) {
            Some(c) => c,
            None => {
                return Err(CommandError::new());
            },
        };
        let copts = command.opts();
        let popts = self.parse_opts(&args, &copts);
        command.run(args, popts)
    }
}

} // verus!
