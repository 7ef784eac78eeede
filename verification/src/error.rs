//! Mapping a parser's validation failure back onto the field it names:
//! the failure's context string carries the argument identifier in
//! angle brackets, and the display name shown to the user is that
//! identifier sentence-cased.

use vstd::prelude::*;

verus! {

use vstd::string::StrSliceExecFns;
use crate::strings::{sentence_case_of, to_sentence_case};

/// Whether `i` is the first position of `c` in `s` at or after `from`.
pub open spec fn first_at(s: Seq<char>, c: char, from: int, i: int) -> bool {
    &&& from <= i < s.len()
    &&& s[i] == c
    &&& forall|k: int| from <= k < i ==> s[k] != c
}

/// The first position of `c` at or after `from`, if any.
fn find_char_from(s: &str, c: char, from: usize) -> (r: Option<usize>)
    requires
        from <= s@.len(),
    ensures
        match r {
            Some(i) => first_at(s@, c, from as int, i as int),
            None => forall|k: int| from <= k < s@.len() ==> s@[k] != c,
        },
{
    let len = s.unicode_len();
    let mut i = from;
    while i < len
        invariant
            from <= i <= len,
            len == s@.len(),
            forall|k: int| from <= k < i ==> s@[k] != c,
        decreases len - i,
    {
        if s.get_char(i) == c {
            return Some(i);
        }
        i += 1;
    }
    None
}

/// The display name a validation failure refers to: the text between
/// the first `<` and the next `>` of the failure's context string,
/// sentence-cased; nothing when the context holds no such pair.
pub fn validation_name_from_context(ctx: &str) -> (r: Option<String>)
    ensures
        match r {
            Some(nm) => exists|i: int, j: int|
                first_at(ctx@, '<', 0, i) && #[trigger] first_at(ctx@, '>', i + 1, j)
                    && nm@ == sentence_case_of(ctx@.subrange(i + 1, j)),
            None => !(exists|i: int, j: int|
                first_at(ctx@, '<', 0, i) && #[trigger] first_at(ctx@, '>', i + 1, j)),
        },
{
    let total = ctx.unicode_len();
    let open_at = match find_char_from(ctx, '<', 0) {
        Some(i) => i,
        None => {
            proof {
                assert forall|i: int, j: int|
                    !(first_at(ctx@, '<', 0, i) && #[trigger] first_at(
                        ctx@,
                        '>',
                        i + 1,
                        j,
                    )) by {
                    if first_at(ctx@, '<', 0, i) {
                        assert(ctx@[i] == '<');
                    }
                }
            }
            return None;
        },
    };
    proof {
        assert(open_at < total);
    }
    match find_char_from(ctx, '>', open_at + 1) {
        Some(close_at) => {
            let inner = ctx.substring_char(open_at + 1, close_at);
            let nm = to_sentence_case(inner);
            proof {
                assert(first_at(ctx@, '<', 0, open_at as int));
                assert(first_at(ctx@, '>', open_at + 1, close_at as int));
                assert(nm@ == sentence_case_of(ctx@.subrange(open_at + 1, close_at as int)));
            }
            Some(nm)
        },
        None => {
            proof {
                assert forall|i: int, j: int|
                    !(first_at(ctx@, '<', 0, i) && #[trigger] first_at(
                        ctx@,
                        '>',
                        i + 1,
                        j,
                    )) by {
                    if first_at(ctx@, '<', 0, i) && first_at(ctx@, '>', i + 1, j) {
                        assert(i == open_at as int) by {
                            if i < open_at as int {
                                assert(ctx@[i] == '<');
                            } else if i > open_at as int {
                                assert(ctx@[open_at as int] == '<');
                            }
                        }
                        assert(ctx@[j] == '>');
                    }
                }
            }
            None
        },
    }
}

} // verus!
