//! User-defined diagnostics of patterns: a diagnostic block is read into a builder, and
//! the builder renders the messages of a match.
//!
//! A message is a sequence of text pieces and type or constant metavariables; rendering
//! puts in each metavariable the text of the value it matched. Spans are named by the
//! pattern's labels and are resolved by whoever reports the diagnostic.
use vstd::prelude::*;

use crate::bindings::NonLocalMetaVars;
use crate::meta::str_eq;
use crate::types::{Interned, Symbol};

verus! {

/// A piece of a message as it is written: a metavariable or plain text.
#[derive(Debug, Clone, Copy)]
pub enum MessageSeg<'i> {
    MetaVar(Symbol),
    Text(&'i str),
}

/// A piece of a message: text, or the value of a type or constant metavariable.
#[derive(Debug, Clone, Copy, PartialEq, Eq)]
pub enum SubMsg<'i> {
    Str(&'i str),
    Ty(usize),
    Const(usize),
}

/// One `key(span) = "message"` pair of a diagnostic block: `text` is the message as
/// written, `segments` its pieces.
#[derive(Debug, Clone)]
pub struct DiagPair<'i> {
    pub key: &'i str,
    pub span: Option<&'i str>,
    pub text: &'i str,
    pub segments: Vec<MessageSeg<'i>>,
}

/// The default level of a lint.
#[derive(Debug, Clone, Copy, PartialEq, Eq, Structural)]
pub enum LintLevel {
    Allow,
    Warn,
    Deny,
    Forbid,
}

/// The first position at or after `from` of `n` in `s`.
pub open spec fn sym_position(s: Seq<Symbol>, n: Symbol, from: int) -> Option<int>
    decreases s.len() - from,
{
    if from < 0 || from >= s.len() {
        None
    } else if s[from] == n {
        Some(from)
    } else {
        sym_position(s, n, from + 1)
    }
}

/// The metavariable `n` names a type or a constant metavariable.
pub open spec fn names_ty_or_const(meta: &NonLocalMetaVars, n: Symbol) -> bool {
    meta.ty_vars@.contains(n) || meta.const_vars@.contains(n)
}

/// The piece of a message that `seg` is: a type metavariable is looked up first.
pub open spec fn sub_msg_of<'i>(meta: &NonLocalMetaVars, seg: MessageSeg<'i>) -> SubMsg<'i> {
    match seg {
        MessageSeg::Text(t) => SubMsg::Str(t),
        MessageSeg::MetaVar(n) => match sym_position(meta.ty_vars@, n, 0) {
            Some(i) => SubMsg::Ty(i as usize),
            None => SubMsg::Const(sym_position(meta.const_vars@, n, 0)->Some_0 as usize),
        },
    }
}

/// The pieces of a message.
pub open spec fn sub_msgs_of<'i>(meta: &NonLocalMetaVars, segs: Seq<MessageSeg<'i>>) -> Seq<SubMsg<'i>> {
    Seq::new(segs.len(), |i: int| sub_msg_of(meta, segs[i]))
}

/// Every metavariable of the message names a type or a constant metavariable.
pub open spec fn segments_resolve(meta: &NonLocalMetaVars, segs: Seq<MessageSeg>) -> bool {
    forall|i: int| 0 <= i < segs.len() ==> (#[trigger] segs[i] matches MessageSeg::MetaVar(n) ==> names_ty_or_const(meta, n))
}

/// The level named `text`.
pub open spec fn level_of(text: Seq<char>) -> Option<LintLevel> {
    if text == "allow"@ {
        Some(LintLevel::Allow)
    } else if text == "warning"@ {
        Some(LintLevel::Warn)
    } else if text == "deny"@ {
        Some(LintLevel::Deny)
    } else if text == "forbid"@ {
        Some(LintLevel::Forbid)
    } else {
        None
    }
}

/// A pair of a diagnostic block reads as one of the known keys, with what it needs.
pub open spec fn pair_valid(meta: &NonLocalMetaVars, p: DiagPair) -> bool {
    if p.key@ == "primary"@ {
        segments_resolve(meta, p.segments@)
    } else if p.key@ == "label"@ {
        segments_resolve(meta, p.segments@) && p.span is Some
    } else if p.key@ == "note"@ || p.key@ == "help"@ {
        segments_resolve(meta, p.segments@)
    } else if p.key@ == "name"@ {
        true
    } else if p.key@ == "level"@ {
        level_of(p.text@) is Some
    } else {
        false
    }
}

/// What a diagnostic block says so far.
pub struct DiagState<'i> {
    pub primary: Option<Seq<SubMsg<'i>>>,
    pub primary_span: Option<&'i str>,
    pub labels: Seq<(Seq<SubMsg<'i>>, &'i str)>,
    pub notes: Seq<(Seq<SubMsg<'i>>, Option<&'i str>)>,
    pub helps: Seq<(Seq<SubMsg<'i>>, Option<&'i str>)>,
    pub name: Option<&'i str>,
    pub level: LintLevel,
}

/// Nothing read yet: the level is `deny`.
pub open spec fn initial_state<'i>() -> DiagState<'i> {
    DiagState {
        primary: None,
        primary_span: None,
        labels: Seq::empty(),
        notes: Seq::empty(),
        helps: Seq::empty(),
        name: None,
        level: LintLevel::Deny,
    }
}

/// The state after reading pair `p`: a later primary message, primary span, name or
/// level replaces an earlier one; labels, notes and helps accumulate.
pub open spec fn read_pair<'i>(meta: &NonLocalMetaVars, st: DiagState<'i>, p: DiagPair<'i>) -> DiagState<'i> {
    let msgs = sub_msgs_of(meta, p.segments@);
    if p.key@ == "primary"@ {
        DiagState {
            primary: Some(msgs),
            primary_span: if p.span is Some {
                p.span
            } else {
                st.primary_span
            },
            ..st
        }
    } else if p.key@ == "label"@ {
        DiagState { labels: st.labels.push((msgs, p.span->Some_0)), ..st }
    } else if p.key@ == "note"@ {
        DiagState { notes: st.notes.push((msgs, p.span)), ..st }
    } else if p.key@ == "help"@ {
        DiagState { helps: st.helps.push((msgs, p.span)), ..st }
    } else if p.key@ == "name"@ {
        DiagState { name: Some(p.text), ..st }
    } else {
        DiagState { level: level_of(p.text@)->Some_0, ..st }
    }
}

/// The state after reading `pairs` in order.
pub open spec fn read_pairs<'i>(meta: &NonLocalMetaVars, pairs: Seq<DiagPair<'i>>) -> DiagState<'i>
    decreases pairs.len(),
{
    if pairs.len() == 0 {
        initial_state()
    } else {
        read_pair(meta, read_pairs(meta, pairs.drop_last()), pairs.last())
    }
}

/// A diagnostic block that can be built: every pair is valid, and the block gives a
/// primary message, a primary span and a name.
pub open spec fn block_valid(meta: &NonLocalMetaVars, pairs: Seq<DiagPair>) -> bool {
    let st = read_pairs(meta, pairs);
    &&& forall|i: int| 0 <= i < pairs.len() ==> pair_valid(meta, #[trigger] pairs[i])
    &&& st.primary is Some
    &&& st.primary_span is Some
    &&& st.name is Some
}

/// The text of a message with the metavariables' values put in.
pub open spec fn rendered(msgs: Seq<SubMsg>, tys: Seq<Seq<char>>, consts: Seq<Seq<char>>) -> Seq<char>
    decreases msgs.len(),
{
    if msgs.len() == 0 {
        Seq::empty()
    } else {
        rendered(msgs.drop_last(), tys, consts) + match msgs.last() {
            SubMsg::Str(s) => s@,
            SubMsg::Ty(i) => tys[i as int],
            SubMsg::Const(i) => consts[i as int],
        }
    }
}

/// Every metavariable of the message has a value.
pub open spec fn msgs_in_bounds(msgs: Seq<SubMsg>, n_tys: nat, n_consts: nat) -> bool {
    forall|i: int|
        0 <= i < msgs.len() ==> match #[trigger] msgs[i] {
            SubMsg::Ty(t) => t < n_tys,
            SubMsg::Const(c) => c < n_consts,
            SubMsg::Str(_) => true,
        }
}

/// A diagnostic of a pattern, ready to render.
#[derive(Debug)]
pub struct DynamicErrorBuilder<'i> {
    pub primary: (Vec<SubMsg<'i>>, &'i str),
    pub labels: Vec<(Vec<SubMsg<'i>>, &'i str)>,
    pub notes: Vec<(Vec<SubMsg<'i>>, Option<&'i str>)>,
    pub helps: Vec<(Vec<SubMsg<'i>>, Option<&'i str>)>,
    /// The lint is named `rpl::{name}`.
    pub name: &'i str,
    pub level: LintLevel,
}

/// A rendered diagnostic, with its spans still named.
#[derive(Debug)]
pub struct DynamicError<'i> {
    pub primary: (String, &'i str),
    pub labels: Vec<(String, &'i str)>,
    pub notes: Vec<(String, Option<&'i str>)>,
    pub helps: Vec<(String, Option<&'i str>)>,
    pub name: &'i str,
    pub level: LintLevel,
}

fn position_of(s: &Vec<Symbol>, n: Symbol) -> (r: Option<usize>)
    ensures
        match r {
            Some(i) => sym_position(s@, n, 0) == Some(i as int),
            None => sym_position(s@, n, 0) is None,
        },
{
    let mut i: usize = 0;
    while i < s.len()
        invariant
            i <= s@.len(),
            sym_position(s@, n, 0) == sym_position(s@, n, i as int),
        decreases s@.len() - i,
    {
        if s[i].same(&n) {
            return Some(i);
        }
        i = i + 1;
    }
    None
}

proof fn lemma_sym_position(s: Seq<Symbol>, n: Symbol, from: int)
    requires
        0 <= from,
    ensures
        sym_position(s, n, from) is None ==> forall|i: int| from <= i < s.len() ==> s[i] != n,
        sym_position(s, n, from) matches Some(i) ==> from <= i < s.len() && s[i] == n,
    decreases s.len() - from,
{
    if from < s.len() && s[from] != n {
        lemma_sym_position(s, n, from + 1);
    }
}

impl<'i> SubMsg<'i> {
    /// The pieces of a message.
    pub fn parse(segments: &Vec<MessageSeg<'i>>, meta: &NonLocalMetaVars) -> (r: Vec<SubMsg<'i>>)
        requires
            segments_resolve(meta, segments@),
        ensures
            r@ == sub_msgs_of(meta, segments@),
    {
        let mut msgs: Vec<SubMsg<'i>> = Vec::new();
        for i in 0..segments.len()
            invariant
                segments_resolve(meta, segments@),
                msgs@ == sub_msgs_of(meta, segments@).subrange(0, i as int),
        {
            let m = match segments[i] {
                MessageSeg::Text(t) => SubMsg::Str(t),
                MessageSeg::MetaVar(n) => match position_of(&meta.ty_vars, n) {
                    Some(t) => SubMsg::Ty(t),
                    None => {
                        proof {
                            lemma_sym_position(meta.ty_vars@, n, 0);
                            lemma_sym_position(meta.const_vars@, n, 0);
                            assert(names_ty_or_const(meta, n));
                            if sym_position(meta.const_vars@, n, 0) is None {
                                let k = choose|k: int| 0 <= k < meta.const_vars@.len() && meta.const_vars@[k] == n;
                                assert(meta.const_vars@[k] == n);
                            }
                        }
                        let c = position_of(&meta.const_vars, n);
                        SubMsg::Const(c.unwrap())
                    },
                },
            };
            msgs.push(m);
            assert(msgs@ =~= sub_msgs_of(meta, segments@).subrange(0, i + 1));
        }
        msgs
    }
}

impl<'i> DynamicErrorBuilder<'i> {
    /// The builder of a diagnostic block, read pair after pair.
    pub fn from_item(pairs: &Vec<DiagPair<'i>>, meta: &NonLocalMetaVars) -> (r: Self)
        requires
            block_valid(meta, pairs@),
        ensures
            ({
                let st = read_pairs(meta, pairs@);
                &&& r.primary.0@ == st.primary->Some_0
                &&& r.primary.1 == st.primary_span->Some_0
                &&& r.labels@.map_values(|l: (Vec<SubMsg<'i>>, &'i str)| (l.0@, l.1)) == st.labels
                &&& r.notes@.map_values(|l: (Vec<SubMsg<'i>>, Option<&'i str>)| (l.0@, l.1)) == st.notes
                &&& r.helps@.map_values(|l: (Vec<SubMsg<'i>>, Option<&'i str>)| (l.0@, l.1)) == st.helps
                &&& r.name == st.name->Some_0
                &&& r.level == st.level
            }),
    {
        let mut primary: Option<Vec<SubMsg<'i>>> = None;
        let mut primary_span: Option<&'i str> = None;
        let mut labels: Vec<(Vec<SubMsg<'i>>, &'i str)> = Vec::new();
        let mut notes: Vec<(Vec<SubMsg<'i>>, Option<&'i str>)> = Vec::new();
        let mut helps: Vec<(Vec<SubMsg<'i>>, Option<&'i str>)> = Vec::new();
        let mut name: Option<&'i str> = None;
        let mut level = LintLevel::Deny;
        for i in 0..pairs.len()
            invariant
                forall|j: int| 0 <= j < pairs@.len() ==> pair_valid(meta, #[trigger] pairs@[j]),
                ({
                    let st = read_pairs(meta, pairs@.subrange(0, i as int));
                    &&& match primary {
                        Some(p) => st.primary == Some(p@),
                        None => st.primary is None,
                    }
                    &&& primary_span == st.primary_span
                    &&& labels@.map_values(|l: (Vec<SubMsg<'i>>, &'i str)| (l.0@, l.1)) == st.labels
                    &&& notes@.map_values(|l: (Vec<SubMsg<'i>>, Option<&'i str>)| (l.0@, l.1)) == st.notes
                    &&& helps@.map_values(|l: (Vec<SubMsg<'i>>, Option<&'i str>)| (l.0@, l.1)) == st.helps
                    &&& name == st.name
                    &&& level == st.level
                }),
        {
            let p = &pairs[i];
            let ghost before = read_pairs(meta, pairs@.subrange(0, i as int));
            proof {
                assert(pairs@.subrange(0, i + 1).drop_last() =~= pairs@.subrange(0, i as int));
                assert(pair_valid(meta, pairs@[i as int]));
            }
            if str_eq(p.key, "primary") {
                primary = Some(SubMsg::parse(&p.segments, meta));
                if p.span.is_some() {
                    primary_span = p.span;
                }
            } else if str_eq(p.key, "label") {
                let ghost old_labels = labels@;
                labels.push((SubMsg::parse(&p.segments, meta), p.span.unwrap()));
                assert(labels@.map_values(|l: (Vec<SubMsg<'i>>, &'i str)| (l.0@, l.1)) =~= old_labels.map_values(
                    |l: (Vec<SubMsg<'i>>, &'i str)| (l.0@, l.1),
                ).push((sub_msgs_of(meta, p.segments@), p.span->Some_0)));
            } else if str_eq(p.key, "note") {
                let ghost old_notes = notes@;
                notes.push((SubMsg::parse(&p.segments, meta), p.span));
                assert(notes@.map_values(|l: (Vec<SubMsg<'i>>, Option<&'i str>)| (l.0@, l.1)) =~= old_notes.map_values(
                    |l: (Vec<SubMsg<'i>>, Option<&'i str>)| (l.0@, l.1),
                ).push((sub_msgs_of(meta, p.segments@), p.span)));
            } else if str_eq(p.key, "help") {
                let ghost old_helps = helps@;
                helps.push((SubMsg::parse(&p.segments, meta), p.span));
                assert(helps@.map_values(|l: (Vec<SubMsg<'i>>, Option<&'i str>)| (l.0@, l.1)) =~= old_helps.map_values(
                    |l: (Vec<SubMsg<'i>>, Option<&'i str>)| (l.0@, l.1),
                ).push((sub_msgs_of(meta, p.segments@), p.span)));
            } else if str_eq(p.key, "name") {
                name = Some(p.text);
            } else {
                level = if str_eq(p.text, "allow") {
                    LintLevel::Allow
                } else if str_eq(p.text, "warning") {
                    LintLevel::Warn
                } else if str_eq(p.text, "deny") {
                    LintLevel::Deny
                } else {
                    LintLevel::Forbid
                };
            }
        }
        assert(pairs@.subrange(0, pairs@.len() as int) =~= pairs@);
        DynamicErrorBuilder {
            primary: (primary.unwrap(), primary_span.unwrap()),
            labels,
            notes,
            helps,
            name: name.unwrap(),
            level,
        }
    }
}

/// The values of the metavariables as text.
pub open spec fn texts(v: Seq<String>) -> Seq<Seq<char>> {
    v.map_values(|s: String| s@)
}

/// Every message of the builder has a value for each of its metavariables.
pub open spec fn builder_in_bounds(b: &DynamicErrorBuilder, n_tys: nat, n_consts: nat) -> bool {
    &&& msgs_in_bounds(b.primary.0@, n_tys, n_consts)
    &&& forall|i: int| 0 <= i < b.labels@.len() ==> msgs_in_bounds((#[trigger] b.labels@[i]).0@, n_tys, n_consts)
    &&& forall|i: int| 0 <= i < b.notes@.len() ==> msgs_in_bounds((#[trigger] b.notes@[i]).0@, n_tys, n_consts)
    &&& forall|i: int| 0 <= i < b.helps@.len() ==> msgs_in_bounds((#[trigger] b.helps@[i]).0@, n_tys, n_consts)
}

/// Render a message with the metavariables' values put in.
fn render(msgs: &Vec<SubMsg>, tys: &Vec<String>, consts: &Vec<String>) -> (r: String)
    requires
        msgs_in_bounds(msgs@, tys@.len(), consts@.len()),
    ensures
        r@ == rendered(msgs@, texts(tys@), texts(consts@)),
{
    let mut s = String::new();
    for i in 0..msgs.len()
        invariant
            msgs_in_bounds(msgs@, tys@.len(), consts@.len()),
            s@ == rendered(msgs@.subrange(0, i as int), texts(tys@), texts(consts@)),
    {
        proof {
            assert(msgs@.subrange(0, i + 1).drop_last() =~= msgs@.subrange(0, i as int));
        }
        match msgs[i] {
            SubMsg::Str(t) => s.append(t),
            SubMsg::Ty(k) => s.append(tys[k].as_str()),
            SubMsg::Const(k) => s.append(consts[k].as_str()),
        }
    }
    assert(msgs@.subrange(0, msgs@.len() as int) =~= msgs@);
    s
}

impl<'i> DynamicErrorBuilder<'i> {
    /// The diagnostic of a match, given the text of the values its type and constant
    /// metavariables matched.
    pub fn build(&self, tys: &Vec<String>, consts: &Vec<String>) -> (r: DynamicError<'i>)
        requires
            builder_in_bounds(self, tys@.len(), consts@.len()),
        ensures
            r.primary.0@ == rendered(self.primary.0@, texts(tys@), texts(consts@)),
            r.primary.1 == self.primary.1,
            r.labels@.len() == self.labels@.len(),
            forall|i: int|
                0 <= i < r.labels@.len() ==> (#[trigger] r.labels@[i]).0@ == rendered(
                    self.labels@[i].0@,
                    texts(tys@),
                    texts(consts@),
                ) && r.labels@[i].1 == self.labels@[i].1,
            r.notes@.len() == self.notes@.len(),
            forall|i: int|
                0 <= i < r.notes@.len() ==> (#[trigger] r.notes@[i]).0@ == rendered(
                    self.notes@[i].0@,
                    texts(tys@),
                    texts(consts@),
                ) && r.notes@[i].1 == self.notes@[i].1,
            r.helps@.len() == self.helps@.len(),
            forall|i: int|
                0 <= i < r.helps@.len() ==> (#[trigger] r.helps@[i]).0@ == rendered(
                    self.helps@[i].0@,
                    texts(tys@),
                    texts(consts@),
                ) && r.helps@[i].1 == self.helps@[i].1,
            r.name == self.name,
            r.level == self.level,
    {
        let primary = (render(&self.primary.0, tys, consts), self.primary.1);
        let mut labels: Vec<(String, &'i str)> = Vec::new();
        for i in 0..self.labels.len()
            invariant
                builder_in_bounds(self, tys@.len(), consts@.len()),
                labels@.len() == i,
                forall|j: int|
                    0 <= j < i ==> (#[trigger] labels@[j]).0@ == rendered(
                        self.labels@[j].0@,
                        texts(tys@),
                        texts(consts@),
                    ) && labels@[j].1 == self.labels@[j].1,
        {
            let l = &self.labels[i];
            assert(msgs_in_bounds(self.labels@[i as int].0@, tys@.len(), consts@.len()));
            labels.push((render(&l.0, tys, consts), l.1));
        }
        let mut notes: Vec<(String, Option<&'i str>)> = Vec::new();
        for i in 0..self.notes.len()
            invariant
                builder_in_bounds(self, tys@.len(), consts@.len()),
                notes@.len() == i,
                forall|j: int|
                    0 <= j < i ==> (#[trigger] notes@[j]).0@ == rendered(
                        self.notes@[j].0@,
                        texts(tys@),
                        texts(consts@),
                    ) && notes@[j].1 == self.notes@[j].1,
        {
            let l = &self.notes[i];
            assert(msgs_in_bounds(self.notes@[i as int].0@, tys@.len(), consts@.len()));
            notes.push((render(&l.0, tys, consts), l.1));
        }
        let mut helps: Vec<(String, Option<&'i str>)> = Vec::new();
        for i in 0..self.helps.len()
            invariant
                builder_in_bounds(self, tys@.len(), consts@.len()),
                helps@.len() == i,
                forall|j: int|
                    0 <= j < i ==> (#[trigger] helps@[j]).0@ == rendered(
                        self.helps@[j].0@,
                        texts(tys@),
                        texts(consts@),
                    ) && helps@[j].1 == self.helps@[j].1,
        {
            let l = &self.helps[i];
            assert(msgs_in_bounds(self.helps@[i as int].0@, tys@.len(), consts@.len()));
            helps.push((render(&l.0, tys, consts), l.1));
        }
        DynamicError { primary, labels, notes, helps, name: self.name, level: self.level }
    }
}

} // verus!
