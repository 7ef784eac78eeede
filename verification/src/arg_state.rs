//! Mutable state for one declared argument, and its projection back
//! into the exact command-line tokens the parser accepts.

use vstd::prelude::*;

verus! {

use crate::descriptor::{ArgDescriptor, ValueHint};
use crate::settings::{loc_view_eq, Localization};
use crate::strings::{join_comma, join_comma_strings, str_eq, to_sentence_case, sentence_case_of};

/// Stable identifiers give dynamically grown value rows an identity a
/// front end can address; they carry no meaning and are never serialized.
#[verifier::external_type_specification]
#[verifier::external_body]
pub struct ExUuid(uuid::Uuid);

/// Relies on uuid's `Uuid::new_v4`: a freshly generated random
/// identifier. Nothing is promised of its value.
#[verifier::external_body]
pub(crate) fn fresh_id() -> (u: uuid::Uuid) {
    uuid::Uuid::new_v4()
}

/// The current value of one argument, shaped by the declaration's arity.
#[allow(inconsistent_fields)]
pub enum ArgKind {
    /// A single free or choice-constrained value.
    Text {
        /// The entered value and its stable row identifier.
        value: (String, uuid::Uuid),
        /// The declared default, shown as a hint and substituted at
        /// serialization when a required value was left empty.
        default: Option<String>,
        /// The closed set of allowed values; empty means free text.
        possible: Vec<String>,
        /// The value shape hint.
        value_hint: ValueHint,
    },
    /// An ordered list of values, each row individually identified.
    MultiText {
        /// The entered values with their stable row identifiers.
        values: Vec<(String, uuid::Uuid)>,
        /// The declared defaults, offered as a reset target.
        default: Vec<String>,
        /// The closed set of allowed values; empty means free text.
        possible: Vec<String>,
        /// One occurrence may carry several values.
        multiple_values: bool,
        /// The argument may occur several times.
        multiple_occurrences: bool,
        /// Values may be packed into one comma-joined token.
        use_delimiter: bool,
        /// Values must be packed into one comma-joined token.
        req_delimiter: bool,
        /// The value shape hint.
        value_hint: ValueHint,
    },
    /// A counted switch with no values.
    Occurrences(u32),
    /// A plain on/off switch.
    Flag(bool),
}

/// State for one argument: the declaration's serialization-relevant
/// fields plus the user's current value.
pub struct ArgState {
    /// Display name, the sentence-cased declaration identifier.
    pub name: String,
    /// The switch token, dashes included; `None` for positionals.
    pub call_name: Option<String>,
    /// Help text.
    pub desc: Option<String>,
    /// Whether the parser accepts this argument's absence.
    pub optional: bool,
    /// Whether the value must be attached to the switch with `=`.
    pub use_equals: bool,
    /// Whether an empty value is rejected.
    pub forbid_empty: bool,
    /// The current value.
    pub kind: ArgKind,
    /// The validation message currently attached to this argument.
    pub validation_error: Option<String>,
    /// The string table, for error messages.
    pub localization: Localization,
}

/// How one validation pass rewrites an argument: the message lands on
/// it exactly when its display name matches, any earlier message is
/// cleared, and every other field is untouched.
pub open spec fn arg_validation_updated(
    pre: ArgState,
    post: ArgState,
    name: Seq<char>,
    message: Seq<char>,
) -> bool {
    &&& post == (ArgState { validation_error: post.validation_error, ..pre })
    &&& pre.name@ == name ==> (post.validation_error matches Some(m) && m@ == message)
    &&& pre.name@ != name ==> post.validation_error is None
}

/// The entered strings of a multi-value list, identifiers stripped.
pub open spec fn multi_values(values: Seq<(String, uuid::Uuid)>) -> Seq<Seq<char>> {
    values.map_values(|p: (String, uuid::Uuid)| p.0@)
}

/// A switch with its value attached by `=`, as one token.
pub open spec fn eq_token(call: Seq<char>, value: Seq<char>) -> Seq<char> {
    call + seq!['='] + value
}

/// The token run of a repeated-occurrence encoding: the switch before
/// every value.
pub open spec fn occurrence_tokens(call: Seq<char>, vs: Seq<Seq<char>>) -> Seq<Seq<char>>
    decreases vs.len(),
{
    if vs.len() == 0 {
        Seq::empty()
    } else {
        seq![call, vs[0]] + occurrence_tokens(call, vs.skip(1))
    }
}

impl ArgState {
    /// A multi-value state only arises from a declaration that allows
    /// several values or several occurrences.
    pub open spec fn wf(self) -> bool {
        match self.kind {
            ArgKind::MultiText { multiple_values, multiple_occurrences, .. } =>
                multiple_values || multiple_occurrences,
            _ => true,
        }
    }

    /// The error message naming this argument as required.
    pub open spec fn required_error(self) -> Seq<char> {
        self.localization.error_is_required.0@ + self.name@
            + self.localization.error_is_required.1@
    }

    /// The single value this argument serializes, its default substituted
    /// when a required value was left empty.
    pub open spec fn text_effective(self) -> Seq<char>
        recommends
            self.kind is Text,
    {
        match self.kind {
            ArgKind::Text { value, default, .. } => {
                if value.0@.len() > 0 {
                    value.0@
                } else if !self.optional {
                    match default {
                        Some(d) => d@,
                        None => Seq::empty(),
                    }
                } else {
                    Seq::empty()
                }
            },
            _ => Seq::empty(),
        }
    }

    /// The exact token run this argument contributes, or the exact error
    /// message when it cannot be serialized.
    pub open spec fn spec_tokens(self) -> Result<Seq<Seq<char>>, Seq<char>> {
        match self.kind {
            ArgKind::Text { .. } => {
                let eff = self.text_effective();
                if eff.len() > 0 {
                    match self.call_name {
                        Some(call) => {
                            if self.use_equals {
                                Ok(seq![eq_token(call@, eff)])
                            } else {
                                Ok(seq![call@, eff])
                            }
                        },
                        None => Ok(seq![eff]),
                    }
                } else if !self.optional {
                    Err(self.required_error())
                } else {
                    Ok(Seq::empty())
                }
            },
            ArgKind::MultiText {
                values,
                multiple_values,
                multiple_occurrences,
                use_delimiter,
                req_delimiter,
                ..
            } => {
                let vs = multi_values(values@);
                if vs.len() == 0 {
                    Ok(Seq::empty())
                } else {
                    match self.call_name {
                        Some(call) => {
                            let single = use_delimiter || vs.len() == 1;
                            if self.use_equals && multiple_values && single {
                                Ok(seq![eq_token(call@, join_comma(vs))])
                            } else if !self.use_equals && multiple_values {
                                if req_delimiter {
                                    Ok(seq![call@, join_comma(vs)])
                                } else {
                                    Ok(seq![call@] + vs)
                                }
                            } else if self.use_equals && multiple_occurrences {
                                Ok(vs.map_values(|v: Seq<char>| eq_token(call@, v)))
                            } else if !self.use_equals && multiple_occurrences {
                                Ok(occurrence_tokens(call@, vs))
                            } else {
                                Err("Can't be represented"@)
                            }
                        },
                        None => Ok(vs),
                    }
                }
            },
            ArgKind::Occurrences(n) => {
                if n == 0 {
                    Ok(Seq::empty())
                } else {
                    match self.call_name {
                        Some(call) => Ok(Seq::new(n as nat, |i: int| call@)),
                        None => Err("Internal error."@),
                    }
                }
            },
            ArgKind::Flag(b) => {
                if !b {
                    Ok(Seq::empty())
                } else {
                    match self.call_name {
                        Some(call) => Ok(seq![call@]),
                        None => Err("Internal error."@),
                    }
                }
            },
        }
    }

    /// What `new` builds from a declaration: every field of the state,
    /// up to the fresh row identifiers.
    pub open spec fn from_descriptor(
        self,
        arg: ArgDescriptor,
        localization: Localization,
    ) -> bool {
        &&& self.name@ == sentence_case_of(arg.id@)
        &&& match (arg.long, arg.short) {
            (Some(_), _) => self.call_name matches Some(c) && c@ == "--"@ + arg.long->0@,
            (None, Some(_)) => self.call_name matches Some(c) && c@ == "-"@ + arg.short->0@,
            (None, None) => self.call_name is None,
        }
        &&& match (arg.long_help, arg.help) {
            (Some(_), _) => self.desc matches Some(d) && d@ == arg.long_help->0@,
            (None, Some(_)) => self.desc matches Some(d) && d@ == arg.help->0@,
            (None, None) => self.desc is None,
        }
        &&& self.optional == !arg.required
        &&& self.use_equals == arg.require_equals
        &&& self.forbid_empty == arg.forbid_empty
        &&& self.validation_error is None
        &&& loc_view_eq(self.localization, localization)
        &&& self.wf()
        &&& arg.takes_value && (arg.multiple_occurrences || arg.multiple_values)
            ==> (self.kind matches ArgKind::MultiText {
                values,
                default,
                possible,
                multiple_values,
                multiple_occurrences,
                use_delimiter,
                req_delimiter,
                value_hint,
            } && values@.len() == 0
                && default.deep_view() == arg.default_values.deep_view()
                && possible.deep_view() == arg.possible_values.deep_view()
                && multiple_values == arg.multiple_values
                && multiple_occurrences == arg.multiple_occurrences
                && use_delimiter == (arg.use_delimiter || arg.require_delimiter)
                && req_delimiter == arg.require_delimiter
                && value_hint == arg.value_hint)
        &&& arg.takes_value && !(arg.multiple_occurrences || arg.multiple_values)
            ==> (self.kind matches ArgKind::Text { value, default, possible, value_hint }
                && value.0@.len() == 0
                && (arg.default_values.len() > 0 ==> (default matches Some(d)
                    && d@ == arg.default_values.deep_view()[0]))
                && (arg.default_values.len() == 0 ==> default is None)
                && possible.deep_view() == arg.possible_values.deep_view()
                && value_hint == arg.value_hint)
        &&& !arg.takes_value && arg.multiple_occurrences ==> self.kind == ArgKind::Occurrences(
            0u32,
        )
        &&& !arg.takes_value && !arg.multiple_occurrences ==> self.kind == ArgKind::Flag(false)
    }

    /// Builds the state for one declaration: the variant follows the
    /// declared arity, values start empty, and the display name is the
    /// sentence-cased identifier.
    pub fn new(arg: &ArgDescriptor, localization: &Localization) -> (r: Self)
        ensures
            r.from_descriptor(*arg, *localization),
            r.wf(),
    {
        let kind = if arg.takes_value {
            if arg.multiple_occurrences || arg.multiple_values {
                ArgKind::MultiText {
                    values: Vec::new(),
                    default: clone_strings(&arg.default_values),
                    possible: clone_strings(&arg.possible_values),
                    multiple_values: arg.multiple_values,
                    multiple_occurrences: arg.multiple_occurrences,
                    use_delimiter: arg.use_delimiter || arg.require_delimiter,
                    req_delimiter: arg.require_delimiter,
                    value_hint: arg.value_hint,
                }
            } else {
                let default = if arg.default_values.len() > 0 {
                    Some(arg.default_values[0].clone())
                } else {
                    None
                };
                ArgKind::Text {
                    value: (String::new(), fresh_id()),
                    default,
                    possible: clone_strings(&arg.possible_values),
                    value_hint: arg.value_hint,
                }
            }
        } else if arg.multiple_occurrences {
            ArgKind::Occurrences(0)
        } else {
            ArgKind::Flag(false)
        };

        let call_name = match &arg.long {
            Some(l) => Some("--".to_owned().concat(l.as_str())),
            None => match &arg.short {
                Some(s) => Some("-".to_owned().concat(s.as_str())),
                None => None,
            },
        };

        let desc = match &arg.long_help {
            Some(h) => Some(h.clone()),
            None => match &arg.help {
                Some(h) => Some(h.clone()),
                None => None,
            },
        };

        ArgState {
            name: to_sentence_case(arg.id.as_str()),
            call_name,
            desc,
            optional: !arg.required,
            use_equals: arg.require_equals,
            forbid_empty: arg.forbid_empty,
            kind,
            validation_error: None,
            localization: localization.duplicate(),
        }
    }

    /// Appends this argument's tokens to `args`, exactly as
    /// `spec_tokens` describes, or reports that argument's exact error.
    pub fn get_cmd_args(&self, args: Vec<String>) -> (r: Result<Vec<String>, String>)
        requires
            self.wf(),
        ensures
            match r {
                Ok(out) => (self.spec_tokens() matches Ok(t)
                    && out.deep_view() == args.deep_view() + t),
                Err(m) => (self.spec_tokens() matches Err(e) && m@ == e),
            },
    {
        let ghost prefix = args.deep_view();
        let mut args = args;
        match &self.kind {
            ArgKind::Text { value, default, .. } => {
                let eff: &String = if !value.0.as_str().is_empty() {
                    &value.0
                } else if !self.optional {
                    match default {
                        Some(d) => d,
                        None => &value.0,
                    }
                } else {
                    &value.0
                };
                assert(eff@ == self.text_effective());
                if !eff.as_str().is_empty() {
                    match &self.call_name {
                        Some(call) => {
                            if self.use_equals {
                                let tok = call.clone().concat("=").concat(eff.as_str());
                                proof {
                                    reveal_strlit("=");
                                    assert(tok@ =~= eq_token(call@, eff@));
                                }
                                args.push(tok);
                            } else {
                                args.push(call.clone());
                                args.push(eff.clone());
                            }
                        },
                        None => {
                            args.push(eff.clone());
                        },
                    }
                    proof {
                        assert(args.deep_view() =~= prefix + self.spec_tokens()->Ok_0);
                    }
                    Ok(args)
                } else if !self.optional {
                    let msg = self
                        .localization
                        .error_is_required
                        .0
                        .clone()
                        .concat(self.name.as_str())
                        .concat(self.localization.error_is_required.1.as_str());
                    Err(msg)
                } else {
                    proof {
                        assert(args.deep_view() =~= prefix + Seq::<Seq<char>>::empty());
                    }
                    Ok(args)
                }
            },
            ArgKind::MultiText {
                values,
                multiple_values,
                multiple_occurrences,
                use_delimiter,
                req_delimiter,
                ..
            } => {
                let ghost vs = multi_values(values@);
                if values.len() == 0 {
                    proof {
                        assert(args.deep_view() =~= prefix + Seq::<Seq<char>>::empty());
                    }
                    return Ok(args);
                }
                match &self.call_name {
                    Some(call) => {
                        let single = *use_delimiter || values.len() == 1;
                        if self.use_equals && *multiple_values && single {
                            let plain = strip_ids(values);
                            let joined = join_comma_strings(&plain);
                            let tok = call.clone().concat("=").concat(joined.as_str());
                            proof {
                                reveal_strlit("=");
                                assert(tok@ =~= eq_token(call@, join_comma(vs)));
                            }
                            args.push(tok);
                            proof {
                                assert(args.deep_view() =~= prefix + self.spec_tokens()->Ok_0);
                            }
                            Ok(args)
                        } else if !self.use_equals && *multiple_values {
                            args.push(call.clone());
                            if *req_delimiter {
                                let plain = strip_ids(values);
                                args.push(join_comma_strings(&plain));
                                proof {
                                    assert(args.deep_view() =~= prefix
                                        + self.spec_tokens()->Ok_0);
                                }
                                Ok(args)
                            } else {
                                let mut i: usize = 0;
                                while i < values.len()
                                    invariant
                                        i <= values.len(),
                                        vs == multi_values(values@),
                                        vs.len() == values.len(),
                                        args.deep_view() =~= prefix + seq![call@]
                                            + vs.take(i as int),
                                    decreases values.len() - i,
                                {
                                    let ghost before = args.deep_view();
                                    args.push(values[i].0.clone());
                                    proof {
                                        assert(args.deep_view() =~= before.push(vs[i as int]));
                                        assert(before.push(vs[i as int]) =~= prefix
                                            + seq![call@] + vs.take(i + 1));
                                    }
                                    i += 1;
                                }
                                proof {
                                    assert(vs.take(values.len() as int) =~= vs);
                                    assert(seq![call@] + vs
                                        =~= self.spec_tokens()->Ok_0);
                                }
                                Ok(args)
                            }
                        } else if self.use_equals && *multiple_occurrences {
                            let ghost toks = vs.map_values(|v: Seq<char>| eq_token(call@, v));
                            let mut i: usize = 0;
                            while i < values.len()
                                invariant
                                    i <= values.len(),
                                    vs == multi_values(values@),
                                    toks == vs.map_values(|v: Seq<char>| eq_token(call@, v)),
                                    vs.len() == values.len(),
                                    self.call_name matches Some(c) && c == call,
                                    args.deep_view() =~= prefix + toks.take(i as int),
                                decreases values.len() - i,
                            {
                                let tok = call.clone().concat("=").concat(values[i].0.as_str());
                                proof {
                                    reveal_strlit("=");
                                    assert(tok@ =~= eq_token(call@, vs[i as int]));
                                }
                                let ghost before = args.deep_view();
                                let ghost tok_view = tok@;
                                args.push(tok);
                                proof {
                                    assert(toks[i as int] == eq_token(call@, vs[i as int]));
                                    assert(args.deep_view() =~= before.push(tok_view));
                                    assert(before.push(tok_view) =~= prefix + toks.take(i + 1));
                                }
                                i += 1;
                            }
                            proof {
                                assert(toks.take(values.len() as int) =~= toks);
                            }
                            Ok(args)
                        } else if !self.use_equals && *multiple_occurrences {
                            let mut i: usize = 0;
                            while i < values.len()
                                invariant
                                    i <= values.len(),
                                    vs == multi_values(values@),
                                    vs.len() == values.len(),
                                    self.call_name matches Some(c) && c == call,
                                    args.deep_view() =~= prefix
                                        + occurrence_tokens(call@, vs.take(i as int)),
                                decreases values.len() - i,
                            {
                                let ghost before = args.deep_view();
                                args.push(call.clone());
                                args.push(values[i].0.clone());
                                proof {
                                    lemma_occurrence_tokens_snoc(call@, vs, i as int);
                                    assert(args.deep_view()
                                        =~= before.push(call@).push(vs[i as int]));
                                    assert(before.push(call@).push(vs[i as int]) =~= prefix
                                        + occurrence_tokens(call@, vs.take(i + 1)));
                                }
                                i += 1;
                            }
                            proof {
                                assert(vs.take(values.len() as int) =~= vs);
                            }
                            Ok(args)
                        } else {
                            Err("Can't be represented".to_owned())
                        }
                    },
                    None => {
                        let mut i: usize = 0;
                        while i < values.len()
                            invariant
                                i <= values.len(),
                                vs == multi_values(values@),
                                vs.len() == values.len(),
                                args.deep_view() =~= prefix + vs.take(i as int),
                            decreases values.len() - i,
                        {
                            let ghost before = args.deep_view();
                            args.push(values[i].0.clone());
                            proof {
                                assert(args.deep_view() =~= before.push(vs[i as int]));
                                assert(before.push(vs[i as int]) =~= prefix + vs.take(i + 1));
                            }
                            i += 1;
                        }
                        proof {
                            assert(vs.take(values.len() as int) =~= vs);
                        }
                        Ok(args)
                    },
                }
            },
            ArgKind::Occurrences(n) => {
                let n = *n;
                if n == 0 {
                    proof {
                        assert(args.deep_view() =~= prefix + Seq::<Seq<char>>::empty());
                    }
                    return Ok(args);
                }
                match &self.call_name {
                    Some(call) => {
                        let mut i: u32 = 0;
                        while i < n
                            invariant
                                i <= n,
                                self.call_name matches Some(c) && c == call,
                                args.deep_view() =~= prefix
                                    + Seq::new(i as nat, |j: int| call@),
                            decreases n - i,
                        {
                            let ghost before = args.deep_view();
                            args.push(call.clone());
                            proof {
                                assert(args.deep_view() =~= before.push(call@));
                                assert(before.push(call@) =~= prefix
                                    + Seq::new((i + 1) as nat, |j: int| call@));
                            }
                            i += 1;
                        }
                        Ok(args)
                    },
                    None => Err("Internal error.".to_owned()),
                }
            },
            ArgKind::Flag(b) => {
                if !*b {
                    proof {
                        assert(args.deep_view() =~= prefix + Seq::<Seq<char>>::empty());
                    }
                    return Ok(args);
                }
                match &self.call_name {
                    Some(call) => {
                        args.push(call.clone());
                        proof {
                            assert(args.deep_view() =~= prefix + seq![call@]);
                        }
                        Ok(args)
                    },
                    None => Err("Internal error.".to_owned()),
                }
            },
        }
    }

    /// Attaches `message` to this argument exactly when `name` is its
    /// display name, and clears any earlier message otherwise.
    pub fn update_validation_error(&mut self, name: &str, message: &str)
        ensures
            arg_validation_updated(*old(self), *final(self), name@, message@),
    {
        if str_eq(self.name.as_str(), name) {
            self.validation_error = Some(message.to_owned());
        } else {
            self.validation_error = None;
        }
    }

    /// Replaces the entered value of a single-valued argument, keeping
    /// its row identifier.
    pub fn enter(&mut self, val: &str)
        requires
            old(self).kind is Text,
        ensures
            *final(self) == (ArgState { kind: final(self).kind, ..*old(self) }),
            final(self).kind matches ArgKind::Text { value, default, possible, value_hint }
                && value.0@ == val@
                && value.1 == old(self).kind->Text_value.1
                && default == old(self).kind->Text_default
                && possible == old(self).kind->Text_possible
                && value_hint == old(self).kind->Text_value_hint,
    {
        match &mut self.kind {
            ArgKind::Text { value, .. } => {
                value.0 = val.to_owned();
            },
            _ => {},
        }
    }

    /// Replaces the value list of a multi-valued argument, giving every
    /// row a fresh identifier.
    pub fn enter_multiple(&mut self, vals: &[&str])
        requires
            old(self).kind is MultiText,
        ensures
            *final(self) == (ArgState { kind: final(self).kind, ..*old(self) }),
            final(self).kind matches ArgKind::MultiText {
                values,
                default,
                possible,
                multiple_values,
                multiple_occurrences,
                use_delimiter,
                req_delimiter,
                value_hint,
            } && multi_values(values@) == vals.deep_view()
                && default == old(self).kind->MultiText_default
                && possible == old(self).kind->MultiText_possible
                && multiple_values == old(self).kind->MultiText_multiple_values
                && multiple_occurrences == old(self).kind->MultiText_multiple_occurrences
                && use_delimiter == old(self).kind->MultiText_use_delimiter
                && req_delimiter == old(self).kind->MultiText_req_delimiter
                && value_hint == old(self).kind->MultiText_value_hint,
    {
        match &mut self.kind {
            ArgKind::MultiText { values, .. } => {
                let mut rows: Vec<(String, uuid::Uuid)> = Vec::new();
                let mut i: usize = 0;
                while i < vals.len()
                    invariant
                        i <= vals.len(),
                        multi_values(rows@) =~= vals.deep_view().take(i as int),
                    decreases vals.len() - i,
                {
                    let ghost prev = rows@;
                    rows.push((vals[i].to_owned(), fresh_id()));
                    proof {
                        assert(multi_values(rows@) =~= multi_values(prev).push(
                            vals.deep_view()[i as int],
                        ));
                        assert(multi_values(prev).push(vals.deep_view()[i as int])
                            =~= vals.deep_view().take(i + 1));
                    }
                    i += 1;
                }
                proof {
                    assert(vals.deep_view().take(vals.len() as int) =~= vals.deep_view());
                }
                *values = rows;
            },
            _ => {},
        }
    }

    /// Sets the counter of a counted switch.
    pub fn occurrences(&mut self, n: u32)
        requires
            old(self).kind is Occurrences,
        ensures
            *final(self) == (ArgState { kind: ArgKind::Occurrences(n), ..*old(self) }),
    {
        match &mut self.kind {
            ArgKind::Occurrences(i) => {
                *i = n;
            },
            _ => {},
        }
    }

    /// Turns a plain switch on.
    pub fn set(&mut self)
        requires
            old(self).kind is Flag,
        ensures
            *final(self) == (ArgState { kind: ArgKind::Flag(true), ..*old(self) }),
    {
        match &mut self.kind {
            ArgKind::Flag(b) => {
                *b = true;
            },
            _ => {},
        }
    }
}

/// The strings of a value list, identifiers dropped.
fn strip_ids(values: &Vec<(String, uuid::Uuid)>) -> (r: Vec<String>)
    ensures
        r.deep_view() == multi_values(values@),
        r.len() == values.len(),
{
    let mut r: Vec<String> = Vec::new();
    let mut i: usize = 0;
    while i < values.len()
        invariant
            i <= values.len(),
            r.deep_view() =~= multi_values(values@).take(i as int),
            r.len() == i,
        decreases values.len() - i,
    {
        r.push(values[i].0.clone());
        proof {
            assert(r.deep_view() =~= multi_values(values@).take(i + 1));
        }
        i += 1;
    }
    proof {
        assert(multi_values(values@).take(values.len() as int) =~= multi_values(values@));
    }
    r
}

/// Extending a repeated-occurrence run by one value appends the switch
/// and that value.
proof fn lemma_occurrence_tokens_snoc(call: Seq<char>, vs: Seq<Seq<char>>, i: int)
    requires
        0 <= i < vs.len(),
    ensures
        occurrence_tokens(call, vs.take(i + 1))
            == occurrence_tokens(call, vs.take(i)) + seq![call, vs[i]],
    decreases i,
{
    if i == 0 {
        assert(vs.take(1) =~= seq![vs[0]]);
        assert(vs.take(1).skip(1) =~= Seq::<Seq<char>>::empty());
        assert(occurrence_tokens(call, vs.take(1))
            == seq![call, vs[0]] + occurrence_tokens(call, vs.take(1).skip(1)));
        assert(vs.take(0) =~= Seq::<Seq<char>>::empty());
        assert(occurrence_tokens(call, vs.take(1)) =~= seq![call, vs[0]]);
        assert(occurrence_tokens(call, vs.take(0)) =~= Seq::<Seq<char>>::empty());
    } else {
        lemma_occurrence_tokens_snoc(call, vs.skip(1), i - 1);
        let pre = vs.take(i);
        let post = vs.take(i + 1);
        assert(post.skip(1) =~= vs.skip(1).take(i));
        assert(pre.skip(1) =~= vs.skip(1).take(i - 1));
        assert(vs.skip(1)[i - 1] == vs[i]);
        assert(occurrence_tokens(call, post)
            == seq![call, post[0]] + occurrence_tokens(call, post.skip(1)));
        assert(occurrence_tokens(call, pre)
            == seq![call, pre[0]] + occurrence_tokens(call, pre.skip(1)));
        assert(post[0] == pre[0]);
        assert(occurrence_tokens(call, post)
            =~= occurrence_tokens(call, pre) + seq![call, vs[i]]);
    }
}

/// A fresh vector holding the same strings.
pub(crate) fn clone_strings(v: &Vec<String>) -> (r: Vec<String>)
    ensures
        r.deep_view() == v.deep_view(),
        r@.len() == v@.len(),
{
    let r = v.clone();
    proof {
        assert(r.deep_view() =~= v.deep_view());
    }
    r
}

} // verus!
