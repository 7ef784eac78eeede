//! The state of a whole command tree: argument states per node, the
//! selected sub-command chain, and the projection of the tree into the
//! single token run that relaunches the program.

use vstd::prelude::*;

verus! {

use crate::arg_state::{fresh_id, ArgState};
use crate::descriptor::{ArgDescriptor, CommandDescriptor};
use crate::settings::Localization;
use crate::strings::{lemma_lex_total, lemma_lex_trans, lex_le, str_eq};

/// State for one command node and, recursively, its sub-commands.
pub struct AppState {
    /// Stable identity for front-end use; it carries no meaning.
    pub id: uuid::Uuid,
    /// Description text.
    pub about: Option<String>,
    /// Argument states, in declaration order, implicit entries excluded.
    pub args: Vec<ArgState>,
    /// Sub-command states, keyed and sorted by name.
    pub subcommands: Vec<(String, AppState)>,
    /// The selected sub-command's name, if any exist.
    pub current: Option<String>,
}

/// Sub-command lists are sorted strictly by name; names are unique.
pub open spec fn sorted_by_name(subs: Seq<(String, AppState)>) -> bool {
    forall|i: int, j: int|
        0 <= i < j < subs.len() ==> lex_le(#[trigger] subs[i].0@, #[trigger] subs[j].0@)
            && subs[i].0@ != subs[j].0@
}

/// The declared arguments that get a state: the implicit help and
/// version entries are excluded.
pub open spec fn is_explicit_arg(a: ArgDescriptor) -> bool {
    a.id@ != "help"@ && a.id@ != "version"@
}

/// The tokens of a run of arguments in order, or the first argument's
/// error.
pub open spec fn args_tokens(args: Seq<ArgState>) -> Result<Seq<Seq<char>>, Seq<char>>
    decreases args.len(),
{
    if args.len() == 0 {
        Ok(Seq::empty())
    } else {
        match args_tokens(args.drop_last()) {
            Err(e) => Err(e),
            Ok(t) => match args.last().spec_tokens() {
                Ok(lt) => Ok(t + lt),
                Err(e) => Err(e),
            },
        }
    }
}

/// An error among the first `k` arguments is the whole run's error.
proof fn lemma_args_tokens_error_persists(args: Seq<ArgState>, k: int)
    requires
        0 <= k <= args.len(),
        args_tokens(args.take(k)) is Err,
    ensures
        args_tokens(args) == args_tokens(args.take(k)),
    decreases args.len() - k,
{
    if k < args.len() {
        let next = args.take(k + 1);
        assert(next.drop_last() =~= args.take(k));
        lemma_args_tokens_error_persists(args, k + 1);
    } else {
        assert(args.take(k) =~= args);
    }
}

/// The position at which a new name keeps a sorted list sorted: the
/// first entry not below it.
fn insert_position(subs: &Vec<(String, AppState)>, name: &str) -> (pos: usize)
    requires
        sorted_by_name(subs@),
    ensures
        pos <= subs.len(),
        forall|i: int| 0 <= i < pos ==> lex_le((#[trigger] subs@[i].0@), name@),
        forall|i: int|
            pos <= i < subs@.len() ==> lex_le(name@, (#[trigger] subs@[i].0@))
                && name@ != subs@[i].0@,
{
    let mut pos: usize = 0;
    while pos < subs.len()
        invariant
            sorted_by_name(subs@),
            pos <= subs.len(),
            forall|i: int| 0 <= i < pos ==> lex_le((#[trigger] subs@[i].0@), name@),
        decreases subs.len() - pos,
    {
        if !crate::strings::str_le(subs[pos].0.as_str(), name) {
            proof {
                lemma_lex_total(subs@[pos as int].0@, name@);
                assert forall|i: int| pos <= i < subs@.len() implies lex_le(
                    name@,
                    (#[trigger] subs@[i].0@),
                ) && name@ != subs@[i].0@ by {
                    if i > pos {
                        lemma_lex_trans(name@, subs@[pos as int].0@, subs@[i].0@);
                        if name@ == subs@[i].0@ {
                            assert(lex_le(subs@[pos as int].0@, subs@[i].0@));
                            assert(false);
                        }
                    }
                }
            }
            return pos;
        }
        pos += 1;
    }
    pos
}

/// Inserting a new name at its sorted position keeps every pair of the
/// list in strict order.
proof fn lemma_insert_keeps_order(
    old_subs: Seq<(String, AppState)>,
    pos: int,
    new_subs: Seq<(String, AppState)>,
    name: Seq<char>,
    i: int,
    j: int,
)
    requires
        sorted_by_name(old_subs),
        0 <= pos <= old_subs.len(),
        new_subs == old_subs.insert(pos, new_subs[pos]),
        new_subs[pos].0@ == name,
        forall|k: int|
            0 <= k < pos ==> lex_le((#[trigger] old_subs[k].0@), name)
                && old_subs[k].0@ != name,
        forall|k: int|
            pos <= k < old_subs.len() ==> lex_le(name, (#[trigger] old_subs[k].0@))
                && name != old_subs[k].0@,
        0 <= i < j < new_subs.len(),
    ensures
        lex_le(new_subs[i].0@, new_subs[j].0@),
        new_subs[i].0@ != new_subs[j].0@,
{
    assert(new_subs.len() == old_subs.len() + 1);
    if j < pos {
        assert(new_subs[i] == old_subs[i]);
        assert(new_subs[j] == old_subs[j]);
    } else if j == pos {
        assert(new_subs[i] == old_subs[i]);
    } else if i < pos {
        assert(new_subs[i] == old_subs[i]);
        assert(new_subs[j] == old_subs[j - 1]);
    } else if i == pos {
        assert(new_subs[j] == old_subs[j - 1]);
    } else {
        assert(new_subs[i] == old_subs[i - 1]);
        assert(new_subs[j] == old_subs[j - 1]);
    }
}

impl AppState {
    /// Arguments are well formed, sub-commands are sorted and well
    /// formed, and the selection names an existing sub-command.
    pub open spec fn wf(self) -> bool
        decreases self,
    {
        &&& forall|i: int| 0 <= i < self.args.len() ==> (#[trigger] self.args[i]).wf()
        &&& sorted_by_name(self.subcommands@)
        &&& match self.current {
            Some(c) => exists|i: int|
                0 <= i < self.subcommands.len() && (#[trigger] self.subcommands[i].0@) == c@,
            None => true,
        }
        &&& forall|i: int|
            0 <= i < self.subcommands.len() ==> (#[trigger] self.subcommands[i].1).wf()
    }

    /// The exact token run of this node and the selected sub-command
    /// chain below it, or the first error met.
    pub open spec fn spec_tokens(self) -> Result<Seq<Seq<char>>, Seq<char>>
        decreases self,
    {
        match args_tokens(self.args@) {
            Err(e) => Err(e),
            Ok(t) => match self.current {
                Some(c) => {
                    if exists|i: int|
                        0 <= i < self.subcommands.len()
                            && (#[trigger] self.subcommands[i].0@) == c@ {
                        let i = choose|i: int|
                            0 <= i < self.subcommands.len()
                                && (#[trigger] self.subcommands[i].0@) == c@;
                        match self.subcommands[i].1.spec_tokens() {
                            Ok(ct) => Ok(t + seq![c@] + ct),
                            Err(e) => Err(e),
                        }
                    } else {
                        Ok(t)
                    }
                },
                None => Ok(t),
            },
        }
    }

    /// What `new` builds from a descriptor node: the argument states of
    /// the explicit declarations in order, one sub-command state per
    /// declared sub-command with the names sorted, and the first
    /// declared sub-command selected.
    pub open spec fn from_descriptor(self, d: CommandDescriptor, loc: Localization) -> bool
        decreases d,
    {
        &&& match d.about {
            Some(a) => self.about matches Some(b) && b@ == a@,
            None => self.about is None,
        }
        &&& {
            let f = d.args@.filter(|a: ArgDescriptor| is_explicit_arg(a));
            self.args.len() == f.len() && forall|i: int|
                0 <= i < f.len() ==> (#[trigger] self.args[i]).from_descriptor(f[i], loc)
        }
        &&& self.subcommands.len() == d.subcommands.len()
        &&& sorted_by_name(self.subcommands@)
        &&& forall|i: int|
            0 <= i < self.subcommands.len() ==> exists|j: int|
                0 <= j < d.subcommands.len()
                    && (#[trigger] self.subcommands[i].0@) == d.subcommands[j].name@
                    && self.subcommands[i].1.from_descriptor(#[trigger] d.subcommands[j], loc)
        &&& forall|j: int|
            0 <= j < d.subcommands.len() ==> exists|i: int|
                0 <= i < self.subcommands.len()
                    && (#[trigger] self.subcommands[i].0@)
                        == (#[trigger] d.subcommands[j].name@)
        &&& if d.subcommands.len() > 0 {
            self.current matches Some(c) && c@ == d.subcommands[0].name@
        } else {
            self.current is None
        }
    }

    /// Builds the tree state for a descriptor: one argument state per
    /// explicit declaration, one node per sub-command with names kept
    /// sorted, and the first declared sub-command selected.
    #[verifier::rlimit(100)]
    pub fn new(app: &CommandDescriptor, localization: &Localization) -> (r: Self)
        requires
            app.wf(),
        ensures
            r.from_descriptor(*app, *localization),
            r.wf(),
        decreases *app,
    {
        let ghost pred = |a: ArgDescriptor| is_explicit_arg(a);
        let mut arg_states: Vec<ArgState> = Vec::new();
        let mut i: usize = 0;
        proof {
            assert(app.args@.take(0) =~= Seq::<ArgDescriptor>::empty());
            reveal_with_fuel(Seq::<_>::filter, 1);
        }
        while i < app.args.len()
            invariant
                i <= app.args.len(),
                pred == (|a: ArgDescriptor| is_explicit_arg(a)),
                arg_states.len() == app.args@.take(i as int).filter(pred).len(),
                forall|k: int|
                    0 <= k < arg_states.len() ==> (#[trigger] arg_states[k]).from_descriptor(
                        app.args@.take(i as int).filter(pred)[k],
                        *localization,
                    ),
                forall|k: int| 0 <= k < arg_states.len() ==> (#[trigger] arg_states[k]).wf(),
            decreases app.args.len() - i,
        {
            let a = &app.args[i];
            let explicit = !str_eq(a.id.as_str(), "help") && !str_eq(a.id.as_str(), "version");
            proof {
                assert(app.args@.take(i + 1).drop_last() =~= app.args@.take(i as int));
                assert(app.args@.take(i + 1).last() == app.args@[i as int]);
                reveal_with_fuel(Seq::<_>::filter, 1);
                assert(explicit == pred(app.args@[i as int]));
            }
            if explicit {
                arg_states.push(ArgState::new(a, localization));
                proof {
                    assert(app.args@.take(i + 1).filter(pred)
                        =~= app.args@.take(i as int).filter(pred).push(app.args@[i as int]));
                }
            } else {
                proof {
                    assert(app.args@.take(i + 1).filter(pred)
                        =~= app.args@.take(i as int).filter(pred));
                }
            }
            i += 1;
        }
        proof {
            assert(app.args@.take(app.args.len() as int) =~= app.args@);
        }

        let mut subs: Vec<(String, AppState)> = Vec::new();
        let mut current: Option<String> = None;
        let mut k: usize = 0;
        while k < app.subcommands.len()
            invariant
                app.wf(),
                k <= app.subcommands.len(),
                subs.len() == k,
                sorted_by_name(subs@),
                forall|i: int|
                    0 <= i < subs.len() ==> exists|j: int|
                        0 <= j < k && (#[trigger] subs[i].0@) == app.subcommands@[j].name@
                            && subs[i].1.from_descriptor(#[trigger] app.subcommands@[j],
                                *localization)
                            && subs[i].1.wf(),
                forall|j: int|
                    0 <= j < k ==> exists|i: int|
                        0 <= i < subs.len()
                            && (#[trigger] subs[i].0@)
                                == (#[trigger] app.subcommands@[j].name@),
                if k > 0 {
                    current matches Some(c) && c@ == app.subcommands@[0].name@
                } else {
                    current is None
                },
            decreases app.subcommands.len() - k,
        {
            let child_desc = &app.subcommands[k];
            proof {
                assert(app.subcommands@[k as int].wf());
            }
            let child = AppState::new(child_desc, localization);
            if k == 0 {
                current = Some(child_desc.name.clone());
            }
            let ghost old_subs = subs@;
            let pos = insert_position(&subs, child_desc.name.as_str());
            proof {
                assert forall|i: int| 0 <= i < old_subs.len() implies old_subs[i].0@
                    != child_desc.name@ by {
                    let j = choose|j: int|
                        0 <= j < k && (#[trigger] old_subs[i].0@) == app.subcommands@[j].name@
                            && old_subs[i].1.from_descriptor(app.subcommands@[j], *localization)
                            && old_subs[i].1.wf();
                    assert(app.subcommands@[j].name@ != app.subcommands@[k as int].name@);
                }
            }
            subs.insert(pos, (child_desc.name.clone(), child));
            proof {
                let new_subs = subs@;
                assert(new_subs == old_subs.insert(pos as int, new_subs[pos as int]));
                assert(new_subs[pos as int].0@ == child_desc.name@);
                assert forall|i: int, j: int| 0 <= i < j < new_subs.len() implies lex_le(
                    #[trigger] new_subs[i].0@,
                    #[trigger] new_subs[j].0@,
                ) && new_subs[i].0@ != new_subs[j].0@ by {
                    lemma_insert_keeps_order(old_subs, pos as int, new_subs, child_desc.name@, i,
                        j);
                }
                assert forall|i: int| 0 <= i < new_subs.len() implies exists|j: int|
                    0 <= j < k + 1 && (#[trigger] new_subs[i].0@) == app.subcommands@[j].name@
                        && new_subs[i].1.from_descriptor(#[trigger] app.subcommands@[j],
                            *localization) && new_subs[i].1.wf() by {
                    if i < pos {
                        assert(new_subs[i] == old_subs[i]);
                    } else if i == pos {
                        assert(new_subs[i].1 == child);
                        assert((new_subs[i].0@) == app.subcommands@[k as int].name@
                            && new_subs[i].1.from_descriptor(app.subcommands@[k as int],
                                *localization) && new_subs[i].1.wf());
                    } else {
                        assert(new_subs[i] == old_subs[i - 1]);
                    }
                }
                assert forall|j: int| 0 <= j < k + 1 implies exists|i: int|
                    0 <= i < new_subs.len()
                        && (#[trigger] new_subs[i].0@)
                            == (#[trigger] app.subcommands@[j].name@) by {
                    if j == k {
                        assert(new_subs[pos as int].0@ == app.subcommands@[j].name@);
                    } else {
                        let i0 = choose|i: int|
                            0 <= i < old_subs.len()
                                && (#[trigger] old_subs[i].0@) == app.subcommands@[j].name@;
                        if i0 < pos {
                            assert(new_subs[i0].0@ == app.subcommands@[j].name@);
                        } else {
                            assert(new_subs[i0 + 1].0@ == app.subcommands@[j].name@);
                        }
                    }
                }
            }
            k += 1;
        }
        proof {
            if app.subcommands.len() > 0 {
                assert(app.subcommands@[0].name@ == app.subcommands@[0].name@);
            }
        }

        let r = AppState {
            id: fresh_id(),
            about: match &app.about {
                Some(a) => Some(a.clone()),
                None => None,
            },
            args: arg_states,
            subcommands: subs,
            current,
        };
        proof {
            assert forall|i: int| 0 <= i < r.subcommands.len() implies (#[trigger] r
                .subcommands@[i].1).wf() by {
                assert(exists|j: int|
                    0 <= j < app.subcommands.len()
                        && (#[trigger] r.subcommands@[i].0@) == app.subcommands@[j].name@
                        && r.subcommands@[i].1.from_descriptor(#[trigger] app.subcommands@[j],
                            *localization) && r.subcommands@[i].1.wf());
            }
            if app.subcommands.len() > 0 {
                let j0 = choose|i: int|
                    0 <= i < r.subcommands.len()
                        && (#[trigger] r.subcommands@[i].0@)
                            == (#[trigger] app.subcommands@[0].name@);
                assert(0 <= j0 < r.subcommands.len()
                    && r.subcommands[j0].0@ == app.subcommands@[0].name@);
            }
        }
        r
    }

    /// The position of the sub-command with the given name.
    pub fn find_subcommand(&self, name: &str) -> (r: Option<usize>)
        ensures
            match r {
                Some(j) => j < self.subcommands.len() && self.subcommands@[j as int].0@ == name@,
                None => forall|i: int|
                    0 <= i < self.subcommands.len()
                        ==> (#[trigger] self.subcommands@[i].0@) != name@,
            },
    {
        let mut j: usize = 0;
        while j < self.subcommands.len()
            invariant
                j <= self.subcommands.len(),
                forall|i: int| 0 <= i < j ==> (#[trigger] self.subcommands@[i].0@) != name@,
            decreases self.subcommands.len() - j,
        {
            if str_eq(self.subcommands[j].0.as_str(), name) {
                return Some(j);
            }
            j += 1;
        }
        None
    }

    /// Appends the whole tree's tokens to `args`: each argument of this
    /// node in order, then the selected sub-command's name, then that
    /// sub-command's own tokens, stopping at the first error.
    pub fn get_cmd_args(&self, args: Vec<String>) -> (r: Result<Vec<String>, String>)
        requires
            self.wf(),
        ensures
            match r {
                Ok(out) => (self.spec_tokens() matches Ok(t)
                    && out.deep_view() == args.deep_view() + t),
                Err(m) => (self.spec_tokens() matches Err(e) && m@ == e),
            },
        decreases *self,
    {
        let ghost prefix = args.deep_view();
        let mut args = args;
        let mut i: usize = 0;
        proof {
            assert(self.args@.take(0) =~= Seq::<ArgState>::empty());
        }
        while i < self.args.len()
            invariant
                self.wf(),
                i <= self.args.len(),
                args_tokens(self.args@.take(i as int)) matches Ok(t)
                    && args.deep_view() == prefix + t,
            decreases self.args.len() - i,
        {
            match self.args[i].get_cmd_args(args) {
                Ok(out) => {
                    args = out;
                },
                Err(m) => {
                    proof {
                        assert(self.args@.take(i + 1).drop_last() =~= self.args@.take(i as int));
                        assert(self.args@.take(i + 1).last() == self.args@[i as int]);
                        assert(args_tokens(self.args@.take(i + 1)) is Err);
                        lemma_args_tokens_error_persists(self.args@, i + 1);
                    }
                    return Err(m);
                },
            }
            proof {
                assert(self.args@.take(i + 1).drop_last() =~= self.args@.take(i as int));
                assert(self.args@.take(i + 1).last() == self.args@[i as int]);
            }
            i += 1;
        }
        proof {
            assert(self.args@.take(self.args.len() as int) =~= self.args@);
        }
        let ghost own = args_tokens(self.args@)->Ok_0;
        match &self.current {
            Some(c) => {
                let j = match self.find_subcommand(c.as_str()) {
                    Some(j) => j,
                    None => {
                        proof {
                            assert(false);
                        }
                        return Err(String::new());
                    },
                };
                let ghost pick = choose|i: int|
                    0 <= i < self.subcommands.len()
                        && (#[trigger] self.subcommands@[i].0@) == c@;
                proof {
                    if pick != j {
                        assert(lex_le(self.subcommands@[pick].0@, self.subcommands@[j as int].0@)
                            && self.subcommands@[pick].0@ != self.subcommands@[j as int].0@
                            || lex_le(self.subcommands@[j as int].0@, self.subcommands@[pick].0@)
                                && self.subcommands@[j as int].0@
                                    != self.subcommands@[pick].0@);
                    }
                    assert(pick == j);
                }
                let ghost before_name = args.deep_view();
                args.push(c.clone());
                proof {
                    assert(args.deep_view() =~= before_name.push(c@));
                }
                let child = &self.subcommands[j].1;
                match child.get_cmd_args(args) {
                    Ok(out) => {
                        proof {
                            assert(out.deep_view() =~= prefix
                                + (own + seq![c@] + child.spec_tokens()->Ok_0));
                        }
                        Ok(out)
                    },
                    Err(m) => Err(m),
                }
            },
            None => Ok(args),
        }
    }
}

} // verus!
