use rpl_core::config::{load_inline_mir, RplConfig, RunConfig};
use rpl_core::context::{ErrorFound, RplCallbacks, RustcCallbacks, RPL_ARGS_ENV};
use rpl_core::meta::{ident_is_primitive, or_record_and_default, str_is_primitive, Ident, Record, SrcSpan, WithPath};

#[test]
fn primitive_type_names() {
    for name in ["u8", "u16", "u32", "u64", "u128", "usize", "i8", "i16", "i32", "i64", "i128", "isize", "bool", "str"] {
        assert!(str_is_primitive(name), "{name}");
    }
    for name in ["char", "f32", "String", "Vec", "", "u"] {
        assert!(!str_is_primitive(name), "{name}");
    }
    assert!(ident_is_primitive(&Ident { name: "bool".to_string(), span: SrcSpan { start: 0, end: 4 } }));
    assert!(!ident_is_primitive(&Ident { name: "Self".to_string(), span: SrcSpan { start: 0, end: 4 } }));
}

#[test]
fn with_path_keeps_the_path() {
    let w = WithPath::new("a/b.rpl", 20u32);
    assert_eq!(*w.deref(), 20);
    let m = w.map(|x| *x + 1);
    assert_eq!(m.path, "a/b.rpl");
    assert_eq!(m.inner, 21);
}

#[test]
fn with_path_map_composes() {
    let w = WithPath::new("a/b.rpl", 20u32);
    let twice = w.map(|x| *x + 1).map(|x| *x * 3);
    let once = w.map(|x| (*x + 1) * 3);
    assert_eq!(twice.path, once.path);
    assert_eq!(twice.inner, once.inner);
    assert_eq!(twice.inner, 63);
    assert_eq!(twice.path, "a/b.rpl");
}

#[test]
fn record_collects_errors() {
    let mut errors: Vec<&str> = vec![];
    let ok: Result<u32, &str> = Ok(3);
    assert_eq!(ok.or_record(&mut errors), Some(3));
    let bad: Result<u32, &str> = Err("bad");
    assert_eq!(bad.or_record(&mut errors), None);
    assert_eq!(errors, vec!["bad"]);
    assert_eq!(or_record_and_default(Err::<u32, &str>("worse"), &mut errors), 0);
    assert_eq!(or_record_and_default(Ok::<u32, &str>(9), &mut errors), 9);
    assert_eq!(errors, vec!["bad", "worse"]);
}

#[test]
fn inline_mir_setting() {
    assert_eq!(load_inline_mir(None), None);
    assert_eq!(load_inline_mir(Some(&RplConfig { run: None })), None);
    let cfg = RplConfig { run: Some(RunConfig { inline_mir: Some(false) }) };
    assert_eq!(load_inline_mir(Some(&cfg)), Some(false));
    let cfg = RplConfig { run: Some(RunConfig { inline_mir: None }) };
    assert_eq!(load_inline_mir(Some(&cfg)), None);
}

#[test]
fn callbacks_keep_their_argument_variable() {
    assert_eq!(RPL_ARGS_ENV, "RPL_ARGS");
    let c = RplCallbacks::new(Some("--x".to_string()));
    assert_eq!(c.rpl_args_var.as_deref(), Some("--x"));
    let r = RustcCallbacks::new(None);
    assert!(r.rpl_args_var.is_none());
    assert!(!ErrorFound.message().is_empty());
}

fn seg(name: &str, args: &[u64]) -> rpl_core::meta::PathSegment {
    rpl_core::meta::PathSegment {
        ident: Ident { name: name.to_string(), span: SrcSpan { start: 0, end: name.len() } },
        args: args.iter().map(|&id| rpl_core::meta::SyntaxNode { id, span: SrcSpan { start: 0, end: 0 } }).collect(),
    }
}

fn mk_path(segs: Vec<rpl_core::meta::PathSegment>) -> rpl_core::meta::Path {
    rpl_core::meta::Path { leading: None, segments: segs, span: SrcSpan { start: 0, end: 0 } }
}

/// The source texts of the argument nodes, by id.
fn node_texts() -> Vec<String> {
    vec!["::".to_string(), "u8".to_string(), "C".to_string(), "D".to_string()]
}

#[test]
fn path() {
    let std_vec_vec = || mk_path(vec![seg("std", &[]), seg("vec", &[]), seg("Vec", &[])]);
    let std_vec_vec_u8 = || mk_path(vec![seg("std", &[]), seg("vec", &[]), seg("Vec", &[1])]);
    // Vec::<u8> with std::vec::Vec
    let p1 = mk_path(vec![seg("Vec", &[1])]);
    assert_eq!(p1.replace_leading_ident(std_vec_vec()).text(&node_texts()), "std::vec::Vec::<u8>");
    // Vec with std::vec::Vec::<u8>
    let p1 = mk_path(vec![seg("Vec", &[])]);
    assert_eq!(p1.replace_leading_ident(std_vec_vec_u8()).text(&node_texts()), "std::vec::Vec::<u8>");
    // Vec::new with std::vec::Vec
    let p1 = mk_path(vec![seg("Vec", &[]), seg("new", &[])]);
    assert_eq!(p1.replace_leading_ident(std_vec_vec()).text(&node_texts()), "std::vec::Vec::new");
    // Vec::<u8>::new with std::vec::Vec
    let p1 = mk_path(vec![seg("Vec", &[1]), seg("new", &[])]);
    assert_eq!(p1.replace_leading_ident(std_vec_vec()).text(&node_texts()), "std::vec::Vec::<u8>::new");
    // Vec::new with std::vec::Vec::<u8>
    let p1 = mk_path(vec![seg("Vec", &[]), seg("new", &[])]);
    assert_eq!(p1.replace_leading_ident(std_vec_vec_u8()).text(&node_texts()), "std::vec::Vec::<u8>::new");
    // A<C> with B<D>
    let p1 = mk_path(vec![seg("A", &[2])]);
    let p2 = mk_path(vec![seg("B", &[3])]);
    assert_eq!(p1.replace_leading_ident(p2).text(&node_texts()), "B::<D, C>");
}

#[test]
fn path_text_writes_leading_and_arguments() {
    let mut p = mk_path(vec![seg("std", &[]), seg("HashMap", &[1, 3])]);
    assert_eq!(p.text(&node_texts()), "std::HashMap::<u8, D>");
    p.leading = Some(rpl_core::meta::SyntaxNode { id: 0, span: SrcSpan { start: 0, end: 2 } });
    assert_eq!(p.text(&node_texts()), "::std::HashMap::<u8, D>");
    assert_eq!(mk_path(vec![]).text(&node_texts()), "");
}
