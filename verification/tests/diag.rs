use rpl_core::bindings::NonLocalMetaVars;
use rpl_core::diag::{DiagPair, DynamicErrorBuilder, LintLevel, MessageSeg, SubMsg};
use rpl_core::types::Symbol;

fn meta() -> NonLocalMetaVars {
    NonLocalMetaVars { ty_vars: vec![Symbol { id: 1 }], const_vars: vec![Symbol { id: 2 }], place_vars: vec![Symbol { id: 3 }] }
}

fn pair<'i>(key: &'i str, span: Option<&'i str>, text: &'i str, segments: Vec<MessageSeg<'i>>) -> DiagPair<'i> {
    DiagPair { key, span, text, segments }
}

#[test]
fn message_pieces_resolve_metavariables() {
    let segs = vec![MessageSeg::Text("size of "), MessageSeg::MetaVar(Symbol { id: 1 }), MessageSeg::Text(" is "), MessageSeg::MetaVar(Symbol { id: 2 })];
    let msgs = SubMsg::parse(&segs, &meta());
    assert_eq!(msgs, vec![SubMsg::Str("size of "), SubMsg::Ty(0), SubMsg::Str(" is "), SubMsg::Const(0)]);
}

#[test]
fn diagnostic_block_is_built_and_rendered() {
    let pairs = vec![
        pair("primary", Some("ptr"), "", vec![MessageSeg::Text("use of "), MessageSeg::MetaVar(Symbol { id: 1 })]),
        pair("label", Some("ptr"), "", vec![MessageSeg::Text("here")]),
        pair("note", None, "", vec![MessageSeg::Text("value "), MessageSeg::MetaVar(Symbol { id: 2 })]),
        pair("help", Some("src"), "", vec![MessageSeg::Text("help")]),
        pair("name", None, "my_lint", vec![]),
        pair("level", None, "warning", vec![]),
    ];
    let b = DynamicErrorBuilder::from_item(&pairs, &meta());
    assert_eq!(b.primary.1, "ptr");
    assert_eq!(b.name, "my_lint");
    assert_eq!(b.level, LintLevel::Warn);
    assert_eq!(b.labels.len(), 1);
    let e = b.build(&vec!["Vec<u8>".to_string()], &vec!["16".to_string()]);
    assert_eq!(e.primary.0, "use of Vec<u8>");
    assert_eq!(e.primary.1, "ptr");
    assert_eq!(e.labels, vec![("here".to_string(), "ptr")]);
    assert_eq!(e.notes, vec![("value 16".to_string(), None)]);
    assert_eq!(e.helps, vec![("help".to_string(), Some("src"))]);
    assert_eq!(e.level, LintLevel::Warn);
}

#[test]
fn later_pairs_replace_earlier_ones() {
    let pairs = vec![
        pair("primary", Some("a"), "", vec![MessageSeg::Text("first")]),
        pair("primary", None, "", vec![MessageSeg::Text("second")]),
        pair("name", None, "x", vec![]),
        pair("name", None, "y", vec![]),
        pair("level", None, "forbid", vec![]),
        pair("level", None, "allow", vec![]),
    ];
    let b = DynamicErrorBuilder::from_item(&pairs, &meta());
    // the span stays from the first primary message
    assert_eq!(b.primary.1, "a");
    assert_eq!(b.name, "y");
    assert_eq!(b.level, LintLevel::Allow);
    assert_eq!(b.build(&vec![], &vec![]).primary.0, "second");
}

#[test]
fn level_defaults_to_deny() {
    let pairs = vec![pair("name", None, "n", vec![]), pair("primary", Some("s"), "", vec![])];
    let b = DynamicErrorBuilder::from_item(&pairs, &meta());
    assert_eq!(b.level, LintLevel::Deny);
    assert_eq!(b.build(&vec![], &vec![]).primary.0, "");
}
