//! The attributes of patterns: `#[deduplicate]`, `#[diag = ".."]` and `#[const(..)]` on a
//! pattern item, and `#[output = ".."]`, `#[inline(..)]` and `#[rpl(..)]` on a function
//! pattern.
//!
//! An attribute is read as the list of its entries `key` or `key = value`, where a value
//! is a message or a parenthesised list of items.
use vstd::prelude::*;

use crate::meta::{str_eq, Inline};
use crate::name_map::{declared_at, declares, lemma_declared_witness, names_distinct, NameMap};
use crate::types::Interned;

verus! {

/// The value of an item of a parenthesised attribute list.
#[derive(Debug, Clone, Copy)]
pub enum ItemValue<'i> {
    /// A message: `key = "msg"`.
    Message(&'i str),
    /// Any other form of value.
    Other,
}

/// An item inside a parenthesised attribute list: a key, possibly with a value.
#[derive(Debug, Clone, Copy)]
pub struct AttrItem<'i> {
    pub key: &'i str,
    pub value: Option<ItemValue<'i>>,
}

/// The value of an attribute entry.
#[derive(Debug, Clone)]
pub enum AttrValue<'i> {
    /// No value: `#[key]`.
    Flag,
    /// A parenthesised list, possibly empty: `#[key(a, b)]`.
    List(Option<Vec<AttrItem<'i>>>),
    /// A message: `#[key = "msg"]`.
    Message(&'i str),
}

/// One entry of an attribute.
#[derive(Debug, Clone)]
pub struct AttrEntry<'i> {
    pub key: &'i str,
    pub value: AttrValue<'i>,
}

/// A predicate a function pattern's `#[rpl(..)]` attribute asks for.
#[derive(Debug, Clone, Copy, PartialEq, Eq, Structural)]
pub enum FnPredicate {
    RequiresMonomorphization,
}

/// The attributes of a function pattern.
#[derive(Debug, Clone)]
pub struct FnAttr<'i> {
    /// The name of the pattern's output.
    pub output: Option<&'i str>,
    /// The `#[inline]` constraint.
    pub inline: Option<Inline>,
    /// The predicates the function must meet.
    pub predicates: Vec<FnPredicate>,
}

/// The view of the attributes of a function pattern.
pub struct FnAttrView {
    pub output: Option<Seq<char>>,
    pub inline: Option<Inline>,
    pub predicates: Seq<FnPredicate>,
}

impl<'i> View for FnAttr<'i> {
    type V = FnAttrView;

    open spec fn view(&self) -> FnAttrView {
        FnAttrView {
            output: match self.output {
                Some(s) => Some(s@),
                None => None,
            },
            inline: self.inline,
            predicates: self.predicates@,
        }
    }
}

/// The `#[inline(..)]` level named `level`.
pub open spec fn inline_level(level: Seq<char>) -> Option<Inline> {
    if level == "always"@ {
        Some(Inline::Always)
    } else if level == "any"@ {
        Some(Inline::Any)
    } else if level == "never"@ {
        Some(Inline::Never)
    } else {
        None
    }
}

/// Every item of an `#[rpl(..)]` list names a known predicate, without a value.
pub open spec fn rpl_items_valid(items: Seq<AttrItem>) -> bool {
    forall|i: int| 0 <= i < items.len() ==> (#[trigger] items[i]).value is None && items[i].key@ == "requires_monomorphization"@
}

/// An entry of a function pattern's attributes reads as one of the known forms.
pub open spec fn fn_entry_valid(e: AttrEntry) -> bool {
    if e.key@ == "output"@ {
        e.value is Message
    } else if e.key@ == "inline"@ {
        match e.value {
            AttrValue::List(Some(items)) => items@.len() == 1 && items@[0].value is None && inline_level(items@[0].key@)
                is Some,
            AttrValue::List(None) => true,
            _ => false,
        }
    } else if e.key@ == "rpl"@ {
        match e.value {
            AttrValue::List(Some(items)) => rpl_items_valid(items@),
            AttrValue::List(None) => true,
            _ => false,
        }
    } else {
        false
    }
}

/// Every entry of every attribute reads as one of the known forms.
pub open spec fn fn_attrs_valid(attrs: Seq<Vec<AttrEntry>>) -> bool {
    forall|a: int, e: int| 0 <= a < attrs.len() && 0 <= e < attrs[a]@.len() ==> fn_entry_valid(#[trigger] attrs[a]@[e])
}

/// The attributes after reading entry `e`.
pub open spec fn read_fn_entry(v: FnAttrView, e: AttrEntry) -> FnAttrView {
    if e.key@ == "output"@ {
        match e.value {
            AttrValue::Message(msg) => FnAttrView { output: Some(msg@), ..v },
            _ => v,
        }
    } else if e.key@ == "inline"@ {
        match e.value {
            AttrValue::List(Some(items)) => FnAttrView { inline: inline_level(items@[0].key@), ..v },
            _ => FnAttrView { inline: Some(Inline::Normal), ..v },
        }
    } else {
        match e.value {
            AttrValue::List(Some(items)) => FnAttrView {
                predicates: v.predicates + Seq::new(items@.len(), |i: int| FnPredicate::RequiresMonomorphization),
                ..v
            },
            _ => v,
        }
    }
}

/// The attributes after reading the entries of one attribute, in order.
pub open spec fn read_fn_entries(v: FnAttrView, entries: Seq<AttrEntry>) -> FnAttrView
    decreases entries.len(),
{
    if entries.len() == 0 {
        v
    } else {
        read_fn_entry(read_fn_entries(v, entries.drop_last()), entries.last())
    }
}

/// The attributes after reading every attribute, in order.
pub open spec fn read_fn_attrs(attrs: Seq<Vec<AttrEntry>>) -> FnAttrView
    decreases attrs.len(),
{
    if attrs.len() == 0 {
        FnAttrView { output: None, inline: None, predicates: Seq::empty() }
    } else {
        read_fn_entries(read_fn_attrs(attrs.drop_last()), attrs.last()@)
    }
}

impl<'i> FnAttr<'i> {
    /// No attribute.
    pub fn new() -> (r: Self)
        ensures
            r@ == (FnAttrView { output: None, inline: None, predicates: Seq::empty() }),
    {
        FnAttr { output: None, inline: None, predicates: Vec::new() }
    }

    fn read_entry(&mut self, e: &AttrEntry<'i>)
        requires
            fn_entry_valid(*e),
        ensures
            final(self)@ == read_fn_entry(old(self)@, *e),
    {
        if str_eq(e.key, "output") {
            match e.value {
                AttrValue::Message(msg) => {
                    self.output = Some(msg);
                },
                _ => {},
            }
        } else if str_eq(e.key, "inline") {
            match &e.value {
                AttrValue::List(Some(items)) => {
                    let level = items[0].key;
                    self.inline = if str_eq(level, "always") {
                        Some(Inline::Always)
                    } else if str_eq(level, "any") {
                        Some(Inline::Any)
                    } else if str_eq(level, "never") {
                        Some(Inline::Never)
                    } else {
                        None
                    };
                },
                _ => {
                    self.inline = Some(Inline::Normal);
                },
            }
        } else {
            match &e.value {
                AttrValue::List(Some(items)) => {
                    let ghost before = self.predicates@;
                    let ghost out = self.output;
                    let ghost inl = self.inline;
                    for i in 0..items.len()
                        invariant
                            self.output == out,
                            self.inline == inl,
                            self.predicates@ == before + Seq::new(i as nat, |j: int| FnPredicate::RequiresMonomorphization),
                    {
                        self.predicates.push(FnPredicate::RequiresMonomorphization);
                        assert(self.predicates@ =~= before + Seq::new((i + 1) as nat, |j: int| FnPredicate::RequiresMonomorphization));
                    }
                },
                _ => {},
            }
        }
    }

    /// The attributes of a function pattern, read from its attributes in order; a later
    /// `output` or `inline` replaces an earlier one.
    pub fn parse(attrs: &Vec<Vec<AttrEntry<'i>>>) -> (r: Self)
        requires
            fn_attrs_valid(attrs@),
        ensures
            r@ == read_fn_attrs(attrs@),
    {
        let mut result = FnAttr::new();
        for a in 0..attrs.len()
            invariant
                fn_attrs_valid(attrs@),
                result@ == read_fn_attrs(attrs@.subrange(0, a as int)),
        {
            let entries = &attrs[a];
            proof {
                assert(attrs@.subrange(0, a + 1).drop_last() =~= attrs@.subrange(0, a as int));
            }
            let ghost start = result@;
            for e in 0..entries.len()
                invariant
                    fn_attrs_valid(attrs@),
                    a < attrs@.len(),
                    *entries == attrs@[a as int],
                    result@ == read_fn_entries(start, entries@.subrange(0, e as int)),
            {
                proof {
                    assert(entries@.subrange(0, e + 1).drop_last() =~= entries@.subrange(0, e as int));
                    assert(fn_entry_valid(attrs@[a as int]@[e as int]));
                }
                result.read_entry(&entries[e]);
            }
            assert(entries@.subrange(0, entries@.len() as int) =~= entries@);
        }
        assert(attrs@.subrange(0, attrs@.len() as int) =~= attrs@);
        result
    }
}

/// The attributes of a pattern item: `#[deduplicate]`, `#[diag = ".."]` and
/// `#[const(name = "..", ..)]`.
#[derive(Debug)]
pub struct PatAttr<'i> {
    pub deduplicate: bool,
    pub diag: Option<&'i str>,
    pub consts: NameMap<&'i str>,
}

/// The attributes of a pattern item, by content.
pub struct PatAttrView {
    pub deduplicate: bool,
    pub diag: Option<Seq<char>>,
    pub consts: Seq<(Seq<char>, Seq<char>)>,
}

/// The constants of a table, by content.
pub open spec fn consts_view<'i>(s: Seq<(Seq<char>, &'i str)>) -> Seq<(Seq<char>, Seq<char>)> {
    s.map_values(|e: (Seq<char>, &'i str)| (e.0, e.1@))
}

impl<'i> View for PatAttr<'i> {
    type V = PatAttrView;

    open spec fn view(&self) -> PatAttrView {
        PatAttrView {
            deduplicate: self.deduplicate,
            diag: match self.diag {
                Some(d) => Some(d@),
                None => None,
            },
            consts: consts_view(self.consts@),
        }
    }
}

/// `s` with `name` bound to `v`: in its place if `name` is bound, else at the end.
pub open spec fn bind<V>(s: Seq<(Seq<char>, V)>, name: Seq<char>, v: V) -> Seq<(Seq<char>, V)> {
    if declares(s, name) {
        s.update(choose|i: int| declared_at(s, name, i), (name, v))
    } else {
        s.push((name, v))
    }
}

/// The message of an item `name = "msg"`.
pub open spec fn item_message(item: AttrItem) -> Seq<char> {
    match item.value {
        Some(ItemValue::Message(m)) => m@,
        _ => Seq::empty(),
    }
}

/// The constants after binding each item of a `#[const(..)]` list, in order.
pub open spec fn bind_items(s: Seq<(Seq<char>, Seq<char>)>, items: Seq<AttrItem>) -> Seq<(Seq<char>, Seq<char>)>
    decreases items.len(),
{
    if items.len() == 0 {
        s
    } else {
        bind(bind_items(s, items.drop_last()), items.last().key@, item_message(items.last()))
    }
}

/// An entry of a pattern item's attributes reads as one of the known forms: a bare
/// `deduplicate`, a `diag` message, or a `const` list whose items all have messages.
pub open spec fn pat_entry_valid(e: AttrEntry) -> bool {
    if e.key@ == "deduplicate"@ {
        e.value is Flag
    } else if e.key@ == "diag"@ {
        e.value is Message
    } else if e.key@ == "const"@ {
        match e.value {
            AttrValue::List(Some(items)) => forall|i: int|
                0 <= i < items@.len() ==> (#[trigger] items@[i]).value matches Some(ItemValue::Message(_)),
            AttrValue::List(None) => true,
            _ => false,
        }
    } else {
        false
    }
}

/// Every entry of every attribute reads as one of the known forms.
pub open spec fn pat_attrs_valid(attrs: Seq<Vec<AttrEntry>>) -> bool {
    forall|a: int, e: int| 0 <= a < attrs.len() && 0 <= e < attrs[a]@.len() ==> pat_entry_valid(#[trigger] attrs[a]@[e])
}

/// The attributes after reading entry `e`.
pub open spec fn read_pat_entry(v: PatAttrView, e: AttrEntry) -> PatAttrView {
    if e.key@ == "deduplicate"@ {
        PatAttrView { deduplicate: true, ..v }
    } else if e.key@ == "diag"@ {
        match e.value {
            AttrValue::Message(msg) => PatAttrView { diag: Some(msg@), ..v },
            _ => v,
        }
    } else {
        match e.value {
            AttrValue::List(Some(items)) => PatAttrView { consts: bind_items(v.consts, items@), ..v },
            _ => v,
        }
    }
}

/// The attributes after reading the entries of one attribute, in order.
pub open spec fn read_pat_entries(v: PatAttrView, entries: Seq<AttrEntry>) -> PatAttrView
    decreases entries.len(),
{
    if entries.len() == 0 {
        v
    } else {
        read_pat_entry(read_pat_entries(v, entries.drop_last()), entries.last())
    }
}

/// The attributes after reading every attribute, in order.
pub open spec fn read_pat_attrs(attrs: Seq<Vec<AttrEntry>>) -> PatAttrView
    decreases attrs.len(),
{
    if attrs.len() == 0 {
        PatAttrView { deduplicate: false, diag: None, consts: Seq::empty() }
    } else {
        read_pat_entries(read_pat_attrs(attrs.drop_last()), attrs.last()@)
    }
}

pub proof fn lemma_consts_view_distinct<'i>(s: Seq<(Seq<char>, &'i str)>)
    ensures
        names_distinct(consts_view(s)) == names_distinct(s),
        forall|n: Seq<char>| declares(consts_view(s), n) == declares(s, n),
        forall|n: Seq<char>, i: int| declared_at(consts_view(s), n, i) == declared_at(s, n, i),
{
    let c = consts_view(s);
    assert forall|n: Seq<char>| declares(c, n) == declares(s, n) by {
        if declares(c, n) {
            let i = lemma_declared_witness(c, n);
            assert(declared_at(s, n, i));
        }
        if declares(s, n) {
            let i = lemma_declared_witness(s, n);
            assert(declared_at(c, n, i));
        }
    }
    if names_distinct(s) {
        assert forall|i: int, j: int| 0 <= i < c.len() && 0 <= j < c.len() && #[trigger] c[i].0 == #[trigger] c[j].0 implies i == j by {
            assert(s[i].0 == s[j].0);
        }
    }
    if names_distinct(c) {
        assert forall|i: int, j: int| 0 <= i < s.len() && 0 <= j < s.len() && #[trigger] s[i].0 == #[trigger] s[j].0 implies i == j by {
            assert(c[i].0 == c[j].0);
        }
    }
}

impl<'i> PatAttr<'i> {
    /// No attribute.
    pub fn new() -> (r: Self)
        ensures
            r.consts.wf(),
            r@ == (PatAttrView { deduplicate: false, diag: None, consts: Seq::empty() }),
    {
        let r = PatAttr { deduplicate: false, diag: None, consts: NameMap::new() };
        assert(consts_view(r.consts@) =~= Seq::<(Seq<char>, Seq<char>)>::empty());
        r
    }

    fn bind_const(&mut self, name: &str, value: &'i str)
        requires
            old(self).consts.wf(),
        ensures
            final(self).consts.wf(),
            final(self)@ == (PatAttrView { consts: bind(old(self)@.consts, name@, value@), ..old(self)@ }),
    {
        let ghost c0 = self.consts@;
        proof {
            lemma_consts_view_distinct(c0);
        }
        self.consts.insert(name.to_owned(), value);
        proof {
            let c1 = self.consts@;
            lemma_consts_view_distinct(c1);
            if declares(c0, name@) {
                let i = choose|i: int| declared_at(c0, name@, i) && c1 == c0.update(i, (name@, value));
                let k = choose|k: int| declared_at(consts_view(c0), name@, k);
                assert(declared_at(c0, name@, k));
                assert(c0[i].0 == c0[k].0);
                assert(consts_view(c1) =~= consts_view(c0).update(k, (name@, value@)));
            } else {
                assert(consts_view(c1) =~= consts_view(c0).push((name@, value@)));
            }
        }
    }

    /// Read the entries of one attribute, in order: a later `diag` replaces an earlier
    /// one, and a later constant of the same name replaces the earlier value.
    pub fn parse(&mut self, entries: &Vec<AttrEntry<'i>>)
        requires
            old(self).consts.wf(),
            forall|e: int| 0 <= e < entries@.len() ==> pat_entry_valid(#[trigger] entries@[e]),
        ensures
            final(self).consts.wf(),
            final(self)@ == read_pat_entries(old(self)@, entries@),
    {
        let ghost start = self@;
        for e in 0..entries.len()
            invariant
                self.consts.wf(),
                forall|e: int| 0 <= e < entries@.len() ==> pat_entry_valid(#[trigger] entries@[e]),
                self@ == read_pat_entries(start, entries@.subrange(0, e as int)),
        {
            let entry = &entries[e];
            assert(pat_entry_valid(entries@[e as int]));
            let ghost before = self@;
            if str_eq(entry.key, "deduplicate") {
                self.deduplicate = true;
            } else if str_eq(entry.key, "diag") {
                match entry.value {
                    AttrValue::Message(msg) => {
                        self.diag = Some(msg);
                    },
                    _ => {},
                }
            } else {
                match &entry.value {
                    AttrValue::List(Some(items)) => {
                        for i in 0..items.len()
                            invariant
                                self.consts.wf(),
                                forall|i: int| 0 <= i < items@.len() ==> (#[trigger] items@[i]).value matches Some(ItemValue::Message(_)),
                                self@ == (PatAttrView { consts: bind_items(before.consts, items@.subrange(0, i as int)), ..before }),
                        {
                            let item = items[i];
                            assert(items@[i as int].value matches Some(ItemValue::Message(_)));
                            let value = match item.value {
                                Some(ItemValue::Message(m)) => m,
                                _ => "",
                            };
                            self.bind_const(item.key, value);
                            assert(items@.subrange(0, i + 1).drop_last() =~= items@.subrange(0, i as int));
                        }
                        assert(items@.subrange(0, items@.len() as int) =~= items@);
                    },
                    _ => {},
                }
            }
            assert(entries@.subrange(0, e + 1).drop_last() =~= entries@.subrange(0, e as int));
            assert(entries@.subrange(0, e + 1).last() == entries@[e as int]);
        }
        assert(entries@.subrange(0, entries@.len() as int) =~= entries@);
    }

    /// The attributes of a pattern item, read from its attributes in order.
    pub fn parse_all(attrs: &Vec<Vec<AttrEntry<'i>>>) -> (r: Self)
        requires
            pat_attrs_valid(attrs@),
        ensures
            r.consts.wf(),
            r@ == read_pat_attrs(attrs@),
    {
        let mut result = PatAttr::new();
        for a in 0..attrs.len()
            invariant
                result.consts.wf(),
                pat_attrs_valid(attrs@),
                result@ == read_pat_attrs(attrs@.subrange(0, a as int)),
        {
            assert forall|e: int| 0 <= e < attrs@[a as int]@.len() implies pat_entry_valid(#[trigger] attrs@[a as int]@[e]) by {
                assert(pat_entry_valid(attrs@[a as int]@[e]));
            }
            result.parse(&attrs[a]);
            assert(attrs@.subrange(0, a + 1).drop_last() =~= attrs@.subrange(0, a as int));
            assert(attrs@.subrange(0, a + 1).last() == attrs@[a as int]);
        }
        assert(attrs@.subrange(0, attrs@.len() as int) =~= attrs@);
        result
    }

    /// The items, without repetitions when `deduplicate` is set (each kept at its first
    /// place), else as they are.
    pub fn post_process<M: Interned>(&self, items: Vec<M>) -> (r: Vec<M>)
        ensures
            !self.deduplicate ==> r@ == items@,
            self.deduplicate ==> r@.no_duplicates() && r@.to_set() == items@.to_set(),
    {
        if self.deduplicate {
            dedup_first(&items)
        } else {
            items
        }
    }
}

/// The items of `items` without repetitions, each at its first place.
fn dedup_first<M: Interned>(items: &Vec<M>) -> (r: Vec<M>)
    ensures
        r@.no_duplicates(),
        r@.to_set() == items@.to_set(),
{
    let mut out: Vec<M> = Vec::new();
    for i in 0..items.len()
        invariant
            out@.no_duplicates(),
            out@.to_set() == items@.subrange(0, i as int).to_set(),
    {
        let x = items[i];
        let mut seen = false;
        for j in 0..out.len()
            invariant
                seen == exists|k: int| 0 <= k < j && out@[k] == x,
        {
            assert(j < out@.len());
            if out[j].same(&x) {
                seen = true;
            }
        }
        proof {
            assert(items@.subrange(0, i + 1) =~= items@.subrange(0, i as int).push(x));
            items@.subrange(0, i as int).lemma_push_to_set_commute(x);
        }
        if !seen {
            let ghost before = out@;
            out.push(x);
            proof {
                assert(!before.contains(x));
                before.lemma_push_to_set_commute(x);
                assert forall|a: int, b: int| 0 <= a < out@.len() && 0 <= b < out@.len() && a != b implies out@[a]
                    != out@[b] by {
                    if a < before.len() && b < before.len() {
                        assert(before[a] != before[b]);
                    } else if a < before.len() {
                        assert(before.contains(before[a]));
                    } else {
                        assert(before.contains(before[b]));
                    }
                }
            }
        } else {
            proof {
                let k = choose|k: int| 0 <= k < out@.len() && out@[k] == x;
                assert(out@.contains(x));
                assert(out@.to_set().contains(x));
                assert(out@.to_set() =~= out@.to_set().insert(x));
            }
        }
    }
    assert(items@.subrange(0, items@.len() as int) =~= items@);
    out
}

} // verus!
