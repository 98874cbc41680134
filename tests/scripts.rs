use script_host::scripts_workplace::{
    manifest_entries, order_scripts, script_origin, ManifestEntry, ScriptInfo, ScriptsWorkPlace, SCRIPT_ID,
};

fn script(id: &str, deps: &[&str]) -> ScriptInfo<u32, ()> {
    let mut s: ScriptInfo<u32, ()> = ScriptInfo::new_with_src(id, "");
    s.dependency = deps.iter().map(|d| d.to_string()).collect();
    s
}

#[test]
fn origin_of_a_script() {
    let o = script_origin("lib.js");
    assert_eq!(o.resource_name, "lib.js");
    assert_eq!(o.resource_line_offset, 0);
    assert_eq!(o.resource_column_offset, 0);
    assert!(!o.resource_is_shared_cross_origin);
    assert_eq!(o.script_id, SCRIPT_ID);
    assert_eq!(o.script_id, 123);
    assert_eq!(o.source_map_url, "");
    assert!(o.resource_is_opaque);
    assert!(!o.is_wasm && !o.is_module);
}

#[test]
fn new_script_and_compile() {
    let mut s: ScriptInfo<u32, u8> = ScriptInfo::new_with_src("a.js", "print(1)");
    assert_eq!(s.id, "a.js");
    assert_eq!(s.str_script, "print(1)");
    assert!(s.compiled_script.is_none());
    assert!(s.dependency.is_empty());
    assert_eq!(s.context, 0);
    assert!(s.compile_script(Some(7)));
    assert_eq!(s.compiled_script, Some(7));
    assert!(!s.compile_script(None));
    assert!(s.compiled_script.is_none());
}

#[test]
fn order_puts_dependencies_first() {
    let mut w: ScriptsWorkPlace<u32, ()> = ScriptsWorkPlace::new();
    assert!(w.add_to_order(script("app", &["lib", "util"])).is_ok());
    assert!(w.add_to_order(script("lib", &["util"])).is_ok());
    assert!(w.add_to_order(script("util", &[])).is_ok());
    assert_eq!(w.scripts_order, vec!["util", "lib", "app"]);
}

#[test]
fn order_keeps_independent_scripts() {
    let mut w: ScriptsWorkPlace<u32, ()> = ScriptsWorkPlace::new();
    w.add_to_order(script("a", &[])).unwrap();
    w.add_to_order(script("b", &["missing"])).unwrap();
    assert_eq!(w.scripts_order.len(), 2);
}

#[test]
fn cycle_is_refused() {
    let mut w: ScriptsWorkPlace<u32, ()> = ScriptsWorkPlace::new();
    w.add_to_order(script("a", &["b"])).unwrap();
    assert_eq!(w.scripts_order, vec!["a"]);
    let err = w.add_to_order(script("b", &["a"])).unwrap_err();
    let mut ids = err.clone();
    ids.sort();
    assert_eq!(ids, vec!["a", "b"]);
    assert_eq!(w.scripts.len(), 1);
    assert_eq!(w.scripts_order, vec!["a"]);
}

#[test]
fn self_dependency_blocks() {
    let r = order_scripts(&vec![script("a", &[]), script("s", &["s"])]);
    assert_eq!(r, Err(vec![1]));
    assert_eq!(order_scripts::<u32, ()>(&vec![]), Ok(vec![]));
}

#[test]
fn manifest_lines() {
    let lines = vec!["$modules".to_string(), "common".to_string()];
    let e = manifest_entries("./public/js/", &lines);
    assert_eq!(e.len(), 2);
    assert!(matches!(e[0], ManifestEntry::Modules));
    assert!(matches!(&e[1], ManifestEntry::Scripts(p) if p == "./public/js/common"));
}
