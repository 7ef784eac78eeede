//! The session state of a relaunched worker process, as the host sees
//! it: whether each output stream is still open, and how the chunks the
//! background readers hand over are folded into one text.

use vstd::prelude::*;

verus! {

use vstd::string::StringExecFns;
use crate::settings::Localization;

/// What is written to the worker's standard input after launch.
#[derive(Clone, PartialEq, Eq, Hash, Debug)]
pub enum StdinType {
    /// The contents of the file at this path are streamed in.
    File(String),
    /// This text is written directly.
    Text(String),
}

/// Gates a launch on the environment overrides: an override with an
/// empty key is rejected before any process is spawned, with the
/// configured message; otherwise the launch may proceed.
pub fn check_env_overrides(env: &Vec<(String, String)>, loc: &Localization) -> (r: Result<
    (),
    String,
>)
    ensures
        r is Ok <==> (forall|i: int| 0 <= i < env@.len() ==> (#[trigger] env@[i].0)@.len() > 0),
        r matches Err(m) ==> m@ == loc.error_env_var_cant_be_empty@,
{
    let mut i: usize = 0;
    while i < env.len()
        invariant
            i <= env.len(),
            forall|k: int| 0 <= k < i ==> (#[trigger] env@[k].0)@.len() > 0,
        decreases env.len() - i,
    {
        if env[i].0.as_str().is_empty() {
            return Err(loc.error_env_var_cant_be_empty.clone());
        }
        i += 1;
    }
    Ok(())
}

/// Session state for a running worker: one flag per output stream,
/// true until that stream's end-of-stream sentinel has been seen.
pub struct ChildApp {
    /// Standard output has not ended yet.
    pub stdout_open: bool,
    /// Standard error has not ended yet.
    pub stderr_open: bool,
}

/// The text a drained chunk list contributes: every chunk before the
/// first end-of-stream sentinel, concatenated; nothing if the stream
/// was already closed.
pub open spec fn drained_text(open: bool, chunks: Seq<Option<String>>) -> Seq<char>
    decreases chunks.len(),
{
    if !open || chunks.len() == 0 {
        Seq::empty()
    } else {
        match chunks[0] {
            None => Seq::empty(),
            Some(line) => line@ + drained_text(open, chunks.skip(1)),
        }
    }
}

/// Whether the stream is still open after the chunk list: it was open
/// and no sentinel arrived.
pub open spec fn still_open(open: bool, chunks: Seq<Option<String>>) -> bool {
    open && forall|i: int| 0 <= i < chunks.len() ==> (#[trigger] chunks[i]) is Some
}

/// The session state after both streams' chunks are folded in.
pub open spec fn spec_read(
    pre: ChildApp,
    stdout_chunks: Seq<Option<String>>,
    stderr_chunks: Seq<Option<String>>,
) -> ChildApp {
    ChildApp {
        stdout_open: still_open(pre.stdout_open, stdout_chunks),
        stderr_open: still_open(pre.stderr_open, stderr_chunks),
    }
}

/// The state `kill` leaves a session in, whatever it was before: both
/// streams closed.
pub open spec fn spec_kill(pre: ChildApp) -> ChildApp {
    ChildApp { stdout_open: false, stderr_open: false }
}

impl ChildApp {
    /// A fresh session: both streams open.
    pub fn new() -> (s: Self)
        ensures
            s.stdout_open,
            s.stderr_open,
    {
        ChildApp { stdout_open: true, stderr_open: true }
    }

    /// Folds the chunks drained from the two background readers into
    /// one text, standard output first, and records any stream ends.
    pub fn read(
        &mut self,
        stdout_chunks: &Vec<Option<String>>,
        stderr_chunks: &Vec<Option<String>>,
    ) -> (out: String)
        ensures
            *final(self) == spec_read(*old(self), stdout_chunks@, stderr_chunks@),
            out@ == drained_text(old(self).stdout_open, stdout_chunks@)
                + drained_text(old(self).stderr_open, stderr_chunks@),
    {
        let mut out = String::new();
        read_stream(&mut out, &mut self.stdout_open, stdout_chunks);
        read_stream(&mut out, &mut self.stderr_open, stderr_chunks);
        out
    }

    /// True while at least one stream has not ended.
    pub fn is_running(&self) -> (r: bool)
        ensures
            r == (self.stdout_open || self.stderr_open),
    {
        self.stdout_open || self.stderr_open
    }

    /// Ends the session: both streams are considered closed. Safe to
    /// call at any time, in any state, any number of times.
    pub fn kill(&mut self)
        ensures
            *final(self) == spec_kill(*old(self)),
    {
        self.stdout_open = false;
        self.stderr_open = false;
    }
}

/// Appends one stream's drained chunks to `out`, closing the stream
/// flag when its sentinel is met.
fn read_stream(out: &mut String, open: &mut bool, chunks: &Vec<Option<String>>)
    ensures
        *final(open) == still_open(*old(open), chunks@),
        final(out)@ == old(out)@ + drained_text(*old(open), chunks@),
{
    if !*open {
        proof {
            assert(final(out)@ =~= old(out)@ + drained_text(*old(open), chunks@));
        }
        return ;
    }
    let mut i: usize = 0;
    while i < chunks.len()
        invariant
            i <= chunks.len(),
            *open,
            *old(open),
            forall|k: int| 0 <= k < i ==> (#[trigger] chunks@[k]) is Some,
            out@ =~= old(out)@ + drained_text(true, chunks@.take(i as int)),
        decreases chunks.len() - i,
    {
        match &chunks[i] {
            Some(line) => {
                out.append(line.as_str());
                proof {
                    lemma_drained_snoc(chunks@, i as int);
                }
            },
            None => {
                *open = false;
                proof {
                    lemma_drained_stops(chunks@, i as int);
                    assert(drained_text(true, chunks@) == drained_text(
                        true,
                        chunks@.take(i as int),
                    ));
                    assert(out@ =~= old(out)@ + drained_text(true, chunks@));
                }
                return ;
            },
        }
        i += 1;
    }
    proof {
        assert(chunks@.take(chunks.len() as int) =~= chunks@);
    }
}

/// Extending a fully open chunk prefix by one more line appends that
/// line's text.
proof fn lemma_drained_snoc(chunks: Seq<Option<String>>, i: int)
    requires
        0 <= i < chunks.len(),
        forall|k: int| 0 <= k <= i ==> (#[trigger] chunks[k]) is Some,
    ensures
        drained_text(true, chunks.take(i + 1)) == drained_text(true, chunks.take(i))
            + chunks[i]->0@,
    decreases i,
{
    if i == 0 {
        assert(chunks.take(1) =~= seq![chunks[0]]);
        assert(chunks.take(1).skip(1) =~= Seq::<Option<String>>::empty());
        assert(chunks.take(0) =~= Seq::<Option<String>>::empty());
        assert(chunks.take(1)[0] == chunks[0]);
        assert(chunks[0] is Some);
        let line = chunks[0]->0;
        assert(drained_text(true, chunks.take(1)) == line@ + drained_text(
            true,
            chunks.take(1).skip(1),
        ));
        assert(drained_text(true, chunks.take(1)) =~= line@);
        assert(drained_text(true, chunks.take(0)) + line@ =~= line@);
    } else {
        lemma_drained_snoc(chunks.skip(1), i - 1);
        let pre = chunks.take(i);
        let post = chunks.take(i + 1);
        assert(post.skip(1) =~= chunks.skip(1).take(i));
        assert(pre.skip(1) =~= chunks.skip(1).take(i - 1));
        assert(chunks.skip(1)[i - 1] == chunks[i]);
        assert(drained_text(true, post) == post[0]->0@ + drained_text(true, post.skip(1)));
        assert(drained_text(true, pre) == pre[0]->0@ + drained_text(true, pre.skip(1)));
        assert(post[0] == pre[0]);
        assert(drained_text(true, post) =~= drained_text(true, pre) + chunks[i]->0@);
    }
}

/// A sentinel ends the drain: chunks after it contribute nothing.
proof fn lemma_drained_stops(chunks: Seq<Option<String>>, i: int)
    requires
        0 <= i < chunks.len(),
        forall|k: int| 0 <= k < i ==> (#[trigger] chunks[k]) is Some,
        chunks[i] is None,
    ensures
        drained_text(true, chunks) == drained_text(true, chunks.take(i)),
    decreases i,
{
    if i == 0 {
        assert(chunks.take(0) =~= Seq::<Option<String>>::empty());
    } else {
        lemma_drained_stops(chunks.skip(1), i - 1);
        assert(chunks.skip(1)[i - 1] == chunks[i]);
        assert(chunks.take(i).skip(1) =~= chunks.skip(1).take(i - 1));
        assert(drained_text(true, chunks) == chunks[0]->0@ + drained_text(true, chunks.skip(1)));
        assert(drained_text(true, chunks.take(i)) == chunks.take(i)[0]->0@ + drained_text(
            true,
            chunks.take(i).skip(1),
        ));
        assert(chunks.take(i)[0] == chunks[0]);
    }
}

/// The session stops only when both sentinels have been seen: after any
/// drain, it still runs exactly while a stream stays open, so closing
/// one stream alone never ends it.
pub proof fn lemma_running_until_both_closed(
    pre: ChildApp,
    stdout_chunks: Seq<Option<String>>,
    stderr_chunks: Seq<Option<String>>,
)
    ensures
        ({
            let post = spec_read(pre, stdout_chunks, stderr_chunks);
            (post.stdout_open || post.stderr_open) == (still_open(pre.stdout_open, stdout_chunks)
                || still_open(pre.stderr_open, stderr_chunks))
        }),
        pre.stderr_open && (forall|i: int|
            0 <= i < stderr_chunks.len() ==> (#[trigger] stderr_chunks[i]) is Some)
            ==> (spec_read(pre, stdout_chunks, stderr_chunks).stdout_open || spec_read(
            pre,
            stdout_chunks,
            stderr_chunks,
        ).stderr_open),
{
}

/// Ending a session is idempotent: killing a session a second time
/// changes nothing, and a killed session is never running.
pub proof fn lemma_kill_idempotent(s: ChildApp)
    ensures
        spec_kill(spec_kill(s)) == spec_kill(s),
        !(spec_kill(s).stdout_open || spec_kill(s).stderr_open),
{
}

} // verus!
