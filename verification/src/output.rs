//! The output protocol codec: a worker's output stream is free text
//! except for progress-report control messages framed by a private
//! marker character. Decoding splits a chunk on the marker, accepts a
//! run of four fields as a control message only when it is well formed
//! (numeric id, known kind, numeric value), updates a progress segment
//! in place when its id repeats, and passes everything else through as
//! plain text.

use vstd::prelude::*;

verus! {

use vstd::string::StrSliceExecFns;
use vstd::string::StringExecFns;
use vstd::pervasive::VecAdditionalExecFns;
use crate::strings::{
    dec_str, dec_val, is_digit, parse_u64, parses_as_u64, spaced, replace_newlines, str_eq,
    u64_to_string,
};

/// The marker character framing control messages: a Unicode
/// non-character, vanishingly unlikely in ordinary program output.
pub const MAGIC: char = '\u{5FFFE}';

/// One decoded output segment: plain text, or a progress report. The
/// progress value is kept as the raw field text; a front end parses it
/// into a number at display time.
pub enum OutputPayload {
    /// A run of plain program output, styling codes and all.
    Text(String),
    /// A progress report, updated in place when its id repeats.
    ProgressBar {
        /// What the bar shows.
        description: String,
        /// The value field's text, as it appeared on the wire.
        raw_value: String,
    },
}

/// The mathematical shape of a segment's payload.
pub enum PayloadModel {
    /// Plain text.
    Text(Seq<char>),
    /// A progress report.
    ProgressBar {
        /// What the bar shows.
        description: Seq<char>,
        /// The value field's text.
        raw_value: Seq<char>,
    },
}

impl View for OutputPayload {
    type V = PayloadModel;

    open spec fn view(&self) -> PayloadModel {
        match self {
            OutputPayload::Text(t) => PayloadModel::Text(t@),
            OutputPayload::ProgressBar { description, raw_value } => PayloadModel::ProgressBar {
                description: description@,
                raw_value: raw_value@,
            },
        }
    }
}

/// The segment list as the specification sees it.
pub open spec fn segments_model(v: Seq<(u64, OutputPayload)>) -> Seq<(u64, PayloadModel)> {
    v.map_values(|e: (u64, OutputPayload)| (e.0, e.1@))
}

/// Splitting a character sequence on a separator; the result always
/// holds at least one piece, and empty pieces are kept.
pub open spec fn split_on(s: Seq<char>, sep: char) -> Seq<Seq<char>>
    decreases s.len(),
{
    if s.len() == 0 {
        seq![Seq::empty()]
    } else if s[0] == sep {
        seq![Seq::<char>::empty()] + split_on(s.skip(1), sep)
    } else {
        let r = split_on(s.skip(1), sep);
        seq![seq![s[0]] + r[0]] + r.skip(1)
    }
}

/// A split has at least one piece.
proof fn lemma_split_nonempty(s: Seq<char>, sep: char)
    ensures
        split_on(s, sep).len() >= 1,
    decreases s.len(),
{
    if s.len() > 0 {
        lemma_split_nonempty(s.skip(1), sep);
    }
}

/// Up to the first separator, a split is that prefix and the split of
/// what follows the separator.
proof fn lemma_split_first_sep(s: Seq<char>, sep: char, p: int)
    requires
        0 <= p < s.len(),
        s[p] == sep,
        forall|k: int| 0 <= k < p ==> s[k] != sep,
    ensures
        split_on(s, sep) == seq![s.take(p)] + split_on(s.skip(p + 1), sep),
    decreases p,
{
    lemma_split_nonempty(s.skip(1), sep);
    if p == 0 {
        assert(s.take(0) =~= Seq::<char>::empty());
        assert(split_on(s, sep) =~= seq![s.take(0)] + split_on(s.skip(1), sep));
    } else {
        lemma_split_first_sep(s.skip(1), sep, p - 1);
        let r = split_on(s.skip(1), sep);
        assert(s.skip(1).take(p - 1) =~= s.subrange(1, p));
        assert(s.skip(1).skip(p) =~= s.skip(p + 1));
        assert(r[0] == s.subrange(1, p));
        assert(r.skip(1) =~= split_on(s.skip(p + 1), sep));
        assert(seq![s[0]] + r[0] =~= s.take(p));
        assert(split_on(s, sep) =~= seq![s.take(p)] + split_on(s.skip(p + 1), sep));
    }
}

/// With no separator, a split is the whole sequence as one piece.
proof fn lemma_split_no_sep(s: Seq<char>, sep: char)
    requires
        forall|k: int| 0 <= k < s.len() ==> s[k] != sep,
    ensures
        split_on(s, sep) == seq![s],
    decreases s.len(),
{
    if s.len() == 0 {
        assert(s =~= Seq::<char>::empty());
        assert(split_on(s, sep) =~= seq![s]);
    } else {
        lemma_split_no_sep(s.skip(1), sep);
        assert(seq![s[0]] + s.skip(1) =~= s);
        assert(split_on(s.skip(1), sep).skip(1) =~= Seq::<Seq<char>>::empty());
        assert(split_on(s, sep) =~= seq![s]);
    }
}

/// Splits a chunk of text on the marker character.
fn split_text(s: &str) -> (segs: Vec<String>)
    ensures
        segs.deep_view() == split_on(s@, MAGIC),
        segs.len() >= 1,
{
    let len = s.unicode_len();
    let mut segs: Vec<String> = Vec::new();
    let mut start: usize = 0;
    let mut i: usize = 0;
    proof {
        assert(s@.skip(0) =~= s@);
        assert(segs.deep_view() + split_on(s@, MAGIC) =~= split_on(s@, MAGIC));
    }
    while i < len
        invariant
            start <= i <= len,
            len == s@.len(),
            forall|k: int| start <= k < i ==> s@[k] != MAGIC,
            split_on(s@, MAGIC) =~= segs.deep_view() + split_on(s@.skip(start as int), MAGIC),
        decreases len - i,
    {
        if s.get_char(i) == MAGIC {
            let piece = s.substring_char(start, i).to_owned();
            proof {
                let tail = s@.skip(start as int);
                assert(tail[i - start] == s@[i as int]);
                assert forall|k: int| 0 <= k < i - start implies tail[k] != MAGIC by {
                    assert(tail[k] == s@[start + k]);
                }
                lemma_split_first_sep(tail, MAGIC, i - start);
                assert(tail.take(i - start) =~= s@.subrange(start as int, i as int));
                assert(tail.skip(i - start + 1) =~= s@.skip(i + 1));
            }
            let ghost before = segs.deep_view();
            segs.push(piece);
            proof {
                assert(segs.deep_view() =~= before.push(s@.subrange(start as int, i as int)));
                assert(split_on(s@, MAGIC) =~= segs.deep_view() + split_on(
                    s@.skip(i + 1),
                    MAGIC,
                ));
            }
            start = i + 1;
        }
        i += 1;
    }
    let piece = s.substring_char(start, len).to_owned();
    proof {
        let tail = s@.skip(start as int);
        assert forall|k: int| 0 <= k < tail.len() implies tail[k] != MAGIC by {
            assert(tail[k] == s@[start + k]);
        }
        lemma_split_no_sep(tail, MAGIC);
        assert(tail =~= s@.subrange(start as int, len as int));
    }
    let ghost before = segs.deep_view();
    segs.push(piece);
    proof {
        assert(segs.deep_view() =~= before.push(s@.skip(start as int)));
        assert(segs.deep_view() =~= split_on(s@, MAGIC));
    }
    segs
}

/// The accepted shape of a progress value field: digits with at most
/// one decimal point, starting with a digit. The emitter writes values
/// in this shape; anything else marks the message as malformed.
pub open spec fn is_progress_value(s: Seq<char>) -> bool {
    &&& s.len() > 0
    &&& is_digit(s[0])
    &&& forall|i: int| 0 <= i < s.len() ==> (is_digit(#[trigger] s[i]) || s[i] == '.')
    &&& forall|i: int, j: int| 0 <= i < j < s.len() && s[i] == '.' ==> s[j] != '.'
}

/// Decides `is_progress_value`.
fn check_progress_value(s: &str) -> (r: bool)
    ensures
        r == is_progress_value(s@),
{
    let len = s.unicode_len();
    if len == 0 {
        return false;
    }
    let c0 = s.get_char(0);
    if !('0' <= c0 && c0 <= '9') {
        proof {
            assert(s@[0] == c0);
        }
        return false;
    }
    let mut seen_dot: bool = false;
    let ghost mut dot_at: int = 0;
    let mut i: usize = 0;
    while i < len
        invariant
            i <= len,
            len == s@.len(),
            forall|k: int| 0 <= k < i ==> (is_digit(#[trigger] s@[k]) || s@[k] == '.'),
            seen_dot ==> 0 <= dot_at < i && s@[dot_at] == '.',
            forall|k: int| 0 <= k < i && #[trigger] s@[k] == '.' ==> seen_dot && k == dot_at,
        decreases len - i,
    {
        let c = s.get_char(i);
        if c == '.' {
            if seen_dot {
                proof {
                    assert(!is_progress_value(s@)) by {
                        assert(s@[dot_at] == '.' && s@[i as int] == '.');
                    }
                }
                return false;
            }
            seen_dot = true;
            proof {
                dot_at = i as int;
            }
        } else if !('0' <= c && c <= '9') {
            proof {
                assert(s@[i as int] == c);
            }
            return false;
        }
        i += 1;
    }
    proof {
        assert forall|a: int, b: int|
            0 <= a < b < s@.len() && s@[a] == '.' implies s@[b] != '.' by {
            if s@[b] == '.' {
                assert(a == dot_at && b == dot_at);
            }
        }
    }
    true
}

/// The first position holding a segment with this id, or a negative
/// value when there is none.
pub open spec fn find_id(acc: Seq<(u64, PayloadModel)>, id: u64) -> int
    decreases acc.len(),
{
    if acc.len() == 0 {
        -1
    } else if acc[0].0 == id {
        0
    } else {
        let r = find_id(acc.skip(1), id);
        if r == -1 {
            -1
        } else {
            r + 1
        }
    }
}

/// `find_id` returns the first match.
proof fn lemma_find_id_first(acc: Seq<(u64, PayloadModel)>, id: u64, k: int)
    requires
        0 <= k < acc.len(),
        acc[k].0 == id,
        forall|j: int| 0 <= j < k ==> (#[trigger] acc[j].0) != id,
    ensures
        find_id(acc, id) == k,
    decreases k,
{
    if k > 0 {
        assert(acc[0].0 != id);
        assert(acc.skip(1)[k - 1] == acc[k]);
        assert forall|j: int| 0 <= j < k - 1 implies (#[trigger] acc.skip(1)[j].0) != id by {
            assert(acc.skip(1)[j] == acc[j + 1]);
        }
        lemma_find_id_first(acc.skip(1), id, k - 1);
    }
}

/// With no match, `find_id` is negative.
proof fn lemma_find_id_none(acc: Seq<(u64, PayloadModel)>, id: u64)
    requires
        forall|j: int| 0 <= j < acc.len() ==> (#[trigger] acc[j].0) != id,
    ensures
        find_id(acc, id) == -1,
    decreases acc.len(),
{
    if acc.len() > 0 {
        assert forall|j: int| 0 <= j < acc.len() - 1 implies (#[trigger] acc.skip(1)[j].0)
            != id by {
            assert(acc.skip(1)[j] == acc[j + 1]);
        }
        lemma_find_id_none(acc.skip(1), id);
    }
}

/// Where a control message lands: a non-zero id that is already
/// present replaces that segment in place; anything else appends.
/// Id zero is reserved for plain text and never replaces.
pub open spec fn upsert(
    acc: Seq<(u64, PayloadModel)>,
    id: u64,
    p: PayloadModel,
) -> Seq<(u64, PayloadModel)> {
    let k = find_id(acc, id);
    if id != 0 && k >= 0 {
        acc.update(k, (id, p))
    } else {
        acc.push((id, p))
    }
}

/// Trailing text after a control message loses the single newline the
/// emitter adds for readability.
pub open spec fn strip_newline(t: Seq<char>) -> Seq<char> {
    if t.len() > 0 && t[0] == '\n' {
        t.skip(1)
    } else {
        t
    }
}

/// Whether the next four pieces form a well-formed control message:
/// numeric id, the progress-bar kind, any description, numeric value.
pub open spec fn is_control(segs: Seq<Seq<char>>) -> bool {
    &&& segs.len() >= 4
    &&& parses_as_u64(segs[0])
    &&& segs[1] == "progress-bar"@
    &&& is_progress_value(segs[3])
}

/// Folds the pieces after the leading text into the segment list: a
/// well-formed control message is applied and its trailing text (one
/// newline stripped) appended; any other piece passes through as
/// plain text; empty text is dropped.
pub open spec fn decode_rest(
    segs: Seq<Seq<char>>,
    acc: Seq<(u64, PayloadModel)>,
) -> Seq<(u64, PayloadModel)>
    decreases segs.len(),
{
    if segs.len() == 0 {
        acc
    } else if is_control(segs) {
        let id = dec_val(segs[0]) as u64;
        let upserted = upsert(
            acc,
            id,
            PayloadModel::ProgressBar { description: segs[2], raw_value: segs[3] },
        );
        if segs.len() >= 5 {
            let t = strip_newline(segs[4]);
            let acc2 = if t.len() > 0 {
                upserted.push((0, PayloadModel::Text(t)))
            } else {
                upserted
            };
            decode_rest(segs.skip(5), acc2)
        } else {
            upserted
        }
    } else {
        let acc2 = if segs[0].len() > 0 {
            acc.push((0, PayloadModel::Text(segs[0])))
        } else {
            acc
        };
        decode_rest(segs.skip(1), acc2)
    }
}

/// Decoding one chunk: split on the marker; the first piece is plain
/// text; the rest is folded by `decode_rest`.
pub open spec fn spec_decode(
    pre: Seq<(u64, PayloadModel)>,
    text: Seq<char>,
) -> Seq<(u64, PayloadModel)> {
    let segs = split_on(text, MAGIC);
    let acc = if segs[0].len() > 0 {
        pre.push((0, PayloadModel::Text(segs[0])))
    } else {
        pre
    };
    decode_rest(segs.skip(1), acc)
}

/// The position of the segment with this id, scanning from the front.
fn find_segment(segments: &Vec<(u64, OutputPayload)>, id: u64) -> (r: Option<usize>)
    ensures
        match r {
            Some(k) => k < segments.len() && segments@[k as int].0 == id && forall|j: int|
                0 <= j < k ==> (#[trigger] segments@[j].0) != id,
            None => forall|j: int|
                0 <= j < segments.len() ==> (#[trigger] segments@[j].0) != id,
        },
{
    let mut k: usize = 0;
    while k < segments.len()
        invariant
            k <= segments.len(),
            forall|j: int| 0 <= j < k ==> (#[trigger] segments@[j].0) != id,
        decreases segments.len() - k,
    {
        if segments[k].0 == id {
            return Some(k);
        }
        k += 1;
    }
    None
}

/// Decodes one chunk of worker output into the running segment list,
/// exactly as `spec_decode` describes.
pub fn decode_chunk(segments: &mut Vec<(u64, OutputPayload)>, text: &str)
    ensures
        segments_model(final(segments)@) == spec_decode(segments_model(old(segments)@), text@),
{
    let ghost pre = segments_model(segments@);
    let ghost target = spec_decode(pre, text@);
    let segs = split_text(text);
    let ghost segsv = split_on(text@, MAGIC);
    proof {
        assert(segs.deep_view() == segsv);
        assert(segs@.len() == segsv.len());
        assert(segs@[0]@ == segsv[0]);
    }
    if !segs[0].as_str().is_empty() {
        let ghost before = segments_model(segments@);
        segments.push((0, OutputPayload::Text(segs[0].clone())));
        proof {
            assert(segments_model(segments@) =~= before.push((
                0u64,
                PayloadModel::Text(segsv[0]),
            )));
        }
    }
    let mut i: usize = 1;
    while i < segs.len()
        invariant
            1 <= i <= segs.len(),
            segs.deep_view() == segsv,
            segs@.len() == segsv.len(),
            target == spec_decode(pre, text@),
            decode_rest(segsv.skip(i as int), segments_model(segments@)) == target,
        decreases segs.len() - i,
    {
        let ghost sk = segsv.skip(i as int);
        proof {
            assert forall|k: int| 0 <= k < sk.len() implies #[trigger] sk[k] == segsv[i + k] by {}
            assert(sk[0] == segs@[i as int]@);
        }
        let ctrl_id: Option<u64> = if segs.len() - i > 3 {
            parse_u64(segs[i].as_str())
        } else {
            None
        };
        let is_ctrl: bool = match ctrl_id {
            Some(_) => {
                str_eq(segs[i + 1].as_str(), "progress-bar") && check_progress_value(
                    segs[i + 3].as_str(),
                )
            },
            None => false,
        };
        proof {
            if segs.len() - i > 3 {
                assert(sk.len() >= 4);
                assert(sk[1] == segs@[i + 1]@);
                assert(sk[3] == segs@[i + 3]@);
            } else {
                assert(sk.len() < 4);
            }
            assert(is_ctrl == is_control(sk));
        }
        if is_ctrl {
            let id = match ctrl_id {
                Some(v) => v,
                None => 0,
            };
            proof {
                assert(id == dec_val(sk[0]) as u64);
            }
            let payload = OutputPayload::ProgressBar {
                description: segs[i + 2].clone(),
                raw_value: segs[i + 3].clone(),
            };
            let ghost pm = PayloadModel::ProgressBar {
                description: sk[2],
                raw_value: sk[3],
            };
            proof {
                assert(sk[2] == segs@[i + 2]@);
                assert(payload@ == pm);
            }
            let ghost before = segments_model(segments@);
            let found = find_segment(segments, id);
            match found {
                Some(k) => {
                    proof {
                        assert forall|j: int| 0 <= j < k implies (#[trigger] before[j].0)
                            != id by {
                            assert(before[j].0 == segments@[j].0);
                        }
                        assert(before[k as int].0 == id);
                        lemma_find_id_first(before, id, k as int);
                    }
                    if id != 0 {
                        segments.set(k, (id, payload));
                        proof {
                            assert(segments_model(segments@) =~= before.update(
                                k as int,
                                (id, pm),
                            ));
                            assert(segments_model(segments@) =~= upsert(before, id, pm));
                        }
                    } else {
                        segments.push((id, payload));
                        proof {
                            assert(segments_model(segments@) =~= before.push((id, pm)));
                            assert(segments_model(segments@) =~= upsert(before, id, pm));
                        }
                    }
                },
                None => {
                    proof {
                        assert forall|j: int| 0 <= j < before.len() implies (
                        #[trigger] before[j].0) != id by {
                            assert(before[j].0 == segments@[j].0);
                        }
                        lemma_find_id_none(before, id);
                    }
                    segments.push((id, payload));
                    proof {
                        assert(segments_model(segments@) =~= before.push((id, pm)));
                        assert(segments_model(segments@) =~= upsert(before, id, pm));
                    }
                },
            }
            let ghost upserted = segments_model(segments@);
            if segs.len() - i > 4 {
                let trailing = &segs[i + 4];
                let tlen = trailing.as_str().unicode_len();
                let stripped: String = if tlen > 0 && trailing.as_str().get_char(0) == '\n' {
                    trailing.as_str().substring_char(1, tlen).to_owned()
                } else {
                    trailing.clone()
                };
                proof {
                    assert(sk[4] == segs@[i + 4]@);
                    assert(stripped@ =~= strip_newline(sk[4]));
                }
                if !stripped.as_str().is_empty() {
                    let ghost b2 = segments_model(segments@);
                    segments.push((0, OutputPayload::Text(stripped)));
                    proof {
                        assert(segments_model(segments@) =~= b2.push((
                            0u64,
                            PayloadModel::Text(strip_newline(sk[4])),
                        )));
                    }
                }
                proof {
                    assert(sk.skip(5) =~= segsv.skip(i + 5));
                    assert(decode_rest(segsv.skip(i + 5), segments_model(segments@)) == target);
                }
                i += 5;
            } else {
                proof {
                    assert(sk.len() == 4);
                    assert(segsv.skip(i + 4) =~= Seq::<Seq<char>>::empty());
                    assert(decode_rest(segsv.skip(i + 4), segments_model(segments@)) == target);
                }
                i += 4;
            }
        } else {
            if !segs[i].as_str().is_empty() {
                let ghost before = segments_model(segments@);
                segments.push((0, OutputPayload::Text(segs[i].clone())));
                proof {
                    assert(segments_model(segments@) =~= before.push((
                        0u64,
                        PayloadModel::Text(sk[0]),
                    )));
                }
            }
            proof {
                assert(sk.skip(1) =~= segsv.skip(i + 1));
                assert(decode_rest(segsv.skip(i + 1), segments_model(segments@)) == target);
            }
            i += 1;
        }
    }
    proof {
        assert(segsv.skip(segs.len() as int) =~= Seq::<Seq<char>>::empty());
    }
}

/// The wire frame of one progress report: the marker before each of
/// the four fields and once after, then a newline that keeps the
/// output readable where nothing decodes it.
pub open spec fn spec_frame(id: u64, description: Seq<char>, raw_value: Seq<char>) -> Seq<char> {
    seq![MAGIC] + dec_str(id as nat) + seq![MAGIC] + "progress-bar"@ + seq![MAGIC] + description
        + seq![MAGIC] + raw_value + seq![MAGIC] + seq!['\n']
}

/// Builds the wire frame of a progress report, the description's
/// newlines replaced by spaces so the message stays one line.
pub fn encode_progress(id: u64, description: &str, raw_value: &str) -> (r: String)
    ensures
        r@ == spec_frame(id, spaced(description@), raw_value@),
{
    let marker: &str = "\u{5FFFE}";
    proof {
        reveal_strlit("\u{5FFFE}");
        reveal_strlit("\n");
    }
    let mut r = marker.to_owned();
    r.append(u64_to_string(id).as_str());
    r.append(marker);
    r.append("progress-bar");
    r.append(marker);
    let desc = replace_newlines(description);
    r.append(desc.as_str());
    r.append(marker);
    r.append(raw_value);
    r.append(marker);
    r.append("\n");
    proof {
        assert(marker@ =~= seq![MAGIC]);
        assert(r@ =~= spec_frame(id, spaced(description@), raw_value@));
    }
    r
}

} // verus!
