//! Carrying a validation message to the field it names: one pass
//! rewrites the annotations of every argument of the tree's selected
//! command chain, setting the message exactly where the display name
//! matches and clearing it everywhere else.

use vstd::prelude::*;

verus! {

use crate::app_state::AppState;
use crate::arg_state::{arg_validation_updated, fresh_id, ArgState};
use crate::strings::str_eq;

/// How one validation pass rewrites a tree: every argument of this
/// node gets the message exactly when its display name matches, the
/// selected sub-command is rewritten the same way, and everything
/// else — names, selection, unselected sub-commands — is untouched.
pub open spec fn tree_validation_updated(
    pre: AppState,
    post: AppState,
    name: Seq<char>,
    message: Seq<char>,
) -> bool
    decreases pre, 0int,
{
    &&& post.id == pre.id
    &&& post.about == pre.about
    &&& post.current == pre.current
    &&& post.args.len() == pre.args.len()
    &&& forall|i: int|
        0 <= i < pre.args.len() ==> arg_validation_updated(
            #[trigger] pre.args@[i],
            #[trigger] post.args@[i],
            name,
            message,
        )
    &&& post.subcommands.len() == pre.subcommands.len()
    &&& forall|i: int|
        0 <= i < pre.subcommands.len() ==> sub_entry_updated(
            pre.current,
            pre.subcommands@[i],
            post.subcommands@[i],
            name,
            message,
        )
}

/// How one validation pass treats a single sub-command entry: its name
/// is kept; its state is rewritten when the entry is the selected one
/// and kept untouched otherwise.
pub open spec fn sub_entry_updated(
    cur: Option<String>,
    pre: (String, AppState),
    post: (String, AppState),
    name: Seq<char>,
    message: Seq<char>,
) -> bool
    decreases pre.1, 1int,
{
    &&& post.0 == pre.0
    &&& if cur matches Some(c) && pre.0@ == c@ {
        tree_validation_updated(pre.1, post.1, name, message)
    } else {
        post.1 == pre.1
    }
}

/// Rewrites the validation annotation of every argument in the list.
fn update_args_validation(args: &mut Vec<ArgState>, name: &str, message: &str)
    ensures
        final(args).len() == old(args).len(),
        forall|k: int|
            0 <= k < old(args).len() ==> arg_validation_updated(
                #[trigger] old(args)@[k],
                #[trigger] final(args)@[k],
                name@,
                message@,
            ),
{
    let ghost orig = args@;
    let mut updated: Vec<ArgState> = Vec::new();
    while args.len() > 0
        invariant
            updated.len() + args.len() == orig.len(),
            args@ =~= orig.skip(updated.len() as int),
            forall|k: int|
                0 <= k < updated.len() ==> arg_validation_updated(
                    #[trigger] orig[k],
                    #[trigger] updated@[k],
                    name@,
                    message@,
                ),
        decreases args.len(),
    {
        let mut a = args.remove(0);
        assert(a == orig[updated.len() as int]);
        a.update_validation_error(name, message);
        updated.push(a);
        proof {
            assert(args@ =~= orig.skip(updated.len() as int));
        }
    }
    *args = updated;
}

impl AppState {
    /// Rewrites the validation annotations of the tree: each argument
    /// of this node and of the selected sub-command chain carries
    /// `message` exactly when `name` is its display name; any earlier
    /// annotation is cleared.
    #[verifier::spinoff_prover]
    pub fn update_validation_error(&mut self, name: &str, message: &str)
        requires
            old(self).wf(),
        ensures
            tree_validation_updated(*old(self), *final(self), name@, message@),
        decreases *old(self),
    {
        let ghost self0 = *old(self);
        let mut tmp = AppState {
            id: fresh_id(),
            about: None,
            args: Vec::new(),
            subcommands: Vec::new(),
            current: None,
        };
        core::mem::swap(self, &mut tmp);
        proof {
            assert(tmp == self0);
        }
        let AppState { id, about, mut args, subcommands, current } = tmp;
        update_args_validation(&mut args, name, message);
        let cur: Option<String> = match &current {
            Some(c) => Some(c.clone()),
            None => None,
        };
        proof {
            assert(cur == self0.current);
        }
        let ghost subs0 = self0.subcommands@;
        let mut rest = subcommands;
        proof {
            assert(rest@ == subs0);
        }
        let mut rebuilt: Vec<(String, AppState)> = Vec::new();
        while rest.len() > 0
            invariant
                self0 == *old(self),
                self0.wf(),
                cur == self0.current,
                subs0 == self0.subcommands@,
                rebuilt.len() + rest.len() == subs0.len(),
                rest@ =~= subs0.skip(rebuilt.len() as int),
                forall|k: int|
                    0 <= k < rebuilt.len() ==> #[trigger] sub_entry_updated(
                        self0.current,
                        subs0[k],
                        rebuilt@[k],
                        name@,
                        message@,
                    ),
            decreases rest.len(),
        {
            let pair = rest.remove(0);
            let (nm, mut child) = pair;
            let ghost k = rebuilt.len();
            proof {
                assert(nm == subs0[k as int].0);
                assert(child == subs0[k as int].1);
            }
            let selected: bool = match &cur {
                Some(c) => str_eq(nm.as_str(), c.as_str()),
                None => false,
            };
            if selected {
                proof {
                    assert(subs0[k as int].1.wf());
                    assert(decreases_to!(*old(self) => old(self).subcommands@[k as int].1));
                }
                child.update_validation_error(name, message);
            }
            let ghost entry = (nm, child);
            proof {
                if selected {
                    assert(tree_validation_updated(subs0[k as int].1, child, name@, message@));
                } else {
                    assert(child == subs0[k as int].1);
                }
                match self0.current {
                    Some(c0) => {
                        assert(cur == Some(c0));
                        assert(selected == (nm@ == c0@));
                    },
                    None => {
                        assert(!selected);
                    },
                }
                assert(sub_entry_updated(self0.current, subs0[k as int], entry, name@,
                    message@));
            }
            let ghost prev = rebuilt@;
            rebuilt.push((nm, child));
            proof {
                assert(rest@ =~= subs0.skip(rebuilt.len() as int));
                assert(rebuilt@.len() == k + 1);
                assert(rebuilt@[k as int] == entry);
                assert forall|j: int| 0 <= j < rebuilt@.len() implies #[trigger] sub_entry_updated(
                    self0.current,
                    subs0[j],
                    rebuilt@[j],
                    name@,
                    message@,
                ) by {
                    if j < k {
                        assert(rebuilt@[j] == prev[j]);
                        assert(sub_entry_updated(self0.current, subs0[j], prev[j], name@,
                            message@));
                    }
                }
            }
        }
        let updated = AppState { id, about, args, subcommands: rebuilt, current };
        let ghost updated0 = updated;
        let ghost args1 = updated.args@;
        let ghost subs1 = updated.subcommands@;
        *self = updated;
        proof {
            assert(*self == updated0);
            assert(updated0.current == self0.current);
            assert(updated0.id == self0.id);
            assert(updated0.about == self0.about);
            assert(subs1 == rebuilt@);
            assert(subs1.len() == subs0.len());
            assert(updated0.args@.len() == self0.args@.len());
            assert forall|i: int| 0 <= i < self0.args.len() implies arg_validation_updated(
                #[trigger] self0.args@[i],
                #[trigger] updated0.args@[i],
                name@,
                message@,
            ) by {
                assert(updated0.args@[i] == args1[i]);
            }
            assert forall|i: int|
                0 <= i < self0.subcommands.len() implies sub_entry_updated(
                self0.current,
                self0.subcommands@[i],
                updated0.subcommands@[i],
                name@,
                message@,
            ) by {
                assert(updated0.subcommands@[i] == rebuilt@[i]);
                assert(sub_entry_updated(self0.current, subs0[i], rebuilt@[i], name@, message@));
            }
            assert(tree_validation_updated(self0, updated0, name@, message@));
        }
    }
}

} // verus!
