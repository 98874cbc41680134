use std::collections::BTreeSet;

use script_host::scripts_workplace::session_for_ticket;
use script_host::session_cache::{CallbackSharedData, Onto};

fn attr(vars: &CallbackSharedData, key: &str) -> Option<String> {
    vars.get_attr(&key.to_string()).cloned()
}

fn onto(table: &[(&str, &[&str])]) -> Onto {
    Onto {
        supers: table
            .iter()
            .map(|(t, s)| (t.to_string(), s.iter().map(|x| x.to_string()).collect()))
            .collect(),
    }
}

#[test]
fn parent_ids_from_event_id() {
    let mut vars = CallbackSharedData::default();
    vars.set_g_parent_script_id_etc("doc1+scriptA;extra");
    assert_eq!(attr(&vars, "$parent_document_id"), Some("doc1".to_string()));
    assert_eq!(attr(&vars, "$parent_script_id"), Some("scriptA".to_string()));
    vars.set_g_parent_script_id_etc("");
    assert_eq!(attr(&vars, "$parent_document_id"), Some(String::new()));
    assert_eq!(attr(&vars, "$parent_script_id"), Some(String::new()));
}

#[test]
fn parent_ids_need_two_parts() {
    let mut vars = CallbackSharedData::default();
    vars.set_g_parent_script_id_etc("single;doc+script");
    assert_eq!(attr(&vars, "$parent_document_id"), Some(String::new()));
    assert_eq!(attr(&vars, "$parent_script_id"), Some(String::new()));
    vars.set_g_parent_script_id_etc("a+b+c");
    assert_eq!(attr(&vars, "$parent_document_id"), Some("a".to_string()));
    assert_eq!(attr(&vars, "$parent_script_id"), Some("b".to_string()));
    vars.set_g_parent_script_id_etc("+");
    assert_eq!(attr(&vars, "$parent_document_id"), Some(String::new()));
    assert_eq!(attr(&vars, "$parent_script_id"), Some(String::new()));
}

#[test]
fn super_classes_of_single_type() {
    let mut vars = CallbackSharedData::default();
    vars.set_g_super_classes(&["Type1".to_string()], &onto(&[("Type1", &["Base"])]));
    assert_eq!(attr(&vars, "$super_classes"), Some("[\"Base\"]".to_string()));
}

#[test]
fn super_classes_of_several_types_once_each() {
    let mut vars = CallbackSharedData::default();
    let o = onto(&[("T1", &["Base", "Mid"]), ("T2", &["Base", "Other"])]);
    vars.set_g_super_classes(&["T1".to_string(), "T2".to_string(), "Unknown".to_string()], &o);
    let text = attr(&vars, "$super_classes").unwrap();
    assert!(text.starts_with('[') && text.ends_with(']'));
    let items: Vec<&str> = text[1..text.len() - 1].split(',').collect();
    assert_eq!(items.len(), 3);
    let set: BTreeSet<&str> = items.into_iter().collect();
    let expected: BTreeSet<&str> = ["\"Base\"", "\"Mid\"", "\"Other\""].into_iter().collect();
    assert_eq!(set, expected);
}

#[test]
fn super_classes_of_no_types() {
    let mut vars = CallbackSharedData::default();
    vars.set_g_super_classes(&[], &onto(&[]));
    assert_eq!(attr(&vars, "$super_classes"), Some("[]".to_string()));
}

#[test]
fn attributes_rebind() {
    let mut vars = session_for_ticket("sys");
    assert_eq!(attr(&vars, "$ticket"), Some("sys".to_string()));
    assert_eq!(attr(&vars, "$other"), None);
    vars.set_attr("$ticket", "next".to_string());
    assert_eq!(attr(&vars, "$ticket"), Some("next".to_string()));
    assert_eq!(vars.g_key2attr.len(), 1);
}
