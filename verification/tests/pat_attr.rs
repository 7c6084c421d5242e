use rpl_core::meta::Inline;
use rpl_core::pat_attr::{AttrEntry, AttrItem, AttrValue, FnAttr, FnPredicate, ItemValue, PatAttr};
use rpl_core::types::Symbol;

fn item(key: &str) -> AttrItem<'_> {
    AttrItem { key, value: None }
}

#[test]
fn fn_attributes_are_read_in_order() {
    let attrs = vec![
        vec![
            AttrEntry { key: "output", value: AttrValue::Message("first") },
            AttrEntry { key: "inline", value: AttrValue::List(None) },
        ],
        vec![
            AttrEntry { key: "output", value: AttrValue::Message("second") },
            AttrEntry { key: "rpl", value: AttrValue::List(Some(vec![item("requires_monomorphization")])) },
        ],
    ];
    let a = FnAttr::parse(&attrs);
    assert_eq!(a.output, Some("second"));
    assert_eq!(a.inline, Some(Inline::Normal));
    assert_eq!(a.predicates, vec![FnPredicate::RequiresMonomorphization]);
}

#[test]
fn inline_levels() {
    for (level, expected) in [("always", Inline::Always), ("any", Inline::Any), ("never", Inline::Never)] {
        let attrs = vec![vec![AttrEntry { key: "inline", value: AttrValue::List(Some(vec![item(level)])) }]];
        assert_eq!(FnAttr::parse(&attrs).inline, Some(expected));
    }
    let none = FnAttr::parse(&vec![]);
    assert_eq!(none.inline, None);
    assert_eq!(none.output, None);
    assert!(none.predicates.is_empty());
}

#[test]
fn rpl_predicates_accumulate() {
    let attrs = vec![vec![
        AttrEntry { key: "rpl", value: AttrValue::List(Some(vec![item("requires_monomorphization")])) },
        AttrEntry { key: "rpl", value: AttrValue::List(None) },
        AttrEntry {
            key: "rpl",
            value: AttrValue::List(Some(vec![item("requires_monomorphization"), item("requires_monomorphization")])),
        },
    ]];
    assert_eq!(FnAttr::parse(&attrs).predicates.len(), 3);
}

#[test]
fn pattern_item_diag() {
    let entries = vec![
        AttrEntry { key: "diag", value: AttrValue::Message("a") },
        AttrEntry { key: "diag", value: AttrValue::Message("b") },
    ];
    assert_eq!(PatAttr::parse_all(&vec![entries]).diag, Some("b"));
    let none = PatAttr::parse_all(&vec![]);
    assert_eq!(none.diag, None);
    assert!(!none.deduplicate);
    assert_eq!(none.consts.len(), 0);
}

fn named(key: &'static str, msg: &'static str) -> AttrItem<'static> {
    AttrItem { key, value: Some(ItemValue::Message(msg)) }
}

#[test]
fn pattern_item_consts_and_deduplicate() {
    let attrs = vec![
        vec![
            AttrEntry { key: "const", value: AttrValue::List(Some(vec![named("a", "1"), named("b", "2")])) },
            AttrEntry { key: "deduplicate", value: AttrValue::Flag },
        ],
        vec![
            AttrEntry { key: "const", value: AttrValue::List(Some(vec![named("a", "3")])) },
            AttrEntry { key: "const", value: AttrValue::List(None) },
            AttrEntry { key: "diag", value: AttrValue::Message("d") },
        ],
    ];
    let p = PatAttr::parse_all(&attrs);
    assert!(p.deduplicate);
    assert_eq!(p.diag, Some("d"));
    assert_eq!(p.consts.len(), 2);
    assert_eq!(p.consts.get("a"), Some(&"3"));
    assert_eq!(p.consts.get("b"), Some(&"2"));
    assert_eq!(p.consts.find("a"), Some(0));
}

#[test]
fn post_process_deduplicates_when_asked() {
    let items = vec![Symbol { id: 3 }, Symbol { id: 1 }, Symbol { id: 3 }, Symbol { id: 2 }, Symbol { id: 1 }];
    let plain = PatAttr::new();
    assert_eq!(plain.post_process(items.clone()), items);
    let mut dedup = PatAttr::new();
    dedup.parse(&vec![AttrEntry { key: "deduplicate", value: AttrValue::Flag }]);
    assert_eq!(dedup.post_process(items), vec![Symbol { id: 3 }, Symbol { id: 1 }, Symbol { id: 2 }]);
}
