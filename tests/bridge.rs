use script_host::api::{IndvOp, ResultCode};
use script_host::callback::{
    fn_callback_add_to_individual, fn_callback_get_env_num_var, fn_callback_get_env_str_var,
    fn_callback_get_individual, fn_callback_get_individuals, fn_callback_get_rights, fn_callback_print,
    fn_callback_put_individual, fn_callback_query, fn_callback_remove_from_individual,
    fn_callback_remove_individual, fn_callback_set_in_individual, fn_callback_update, read_outcome,
    ReadOutcome, Resolved, DEFAULT_TOP,
};
use script_host::entity::{Entity, Value};
use script_host::session_cache::{CallbackSharedData, FetchResult, Transaction};

fn entity(id: &str, name: &str, vals: Vec<Value>) -> Entity {
    let mut e = Entity::new(id);
    e.apply_predicate(IndvOp::SetIn, &name.to_string(), &vals);
    e
}

fn first_str(e: &Entity, name: &str) -> Option<String> {
    match e.get_values(&name.to_string()).and_then(|v| v.first()) {
        Some(Value::Str(s)) | Some(Value::Uri(s)) => Some(s.clone()),
        _ => None,
    }
}

fn is_true(e: &Entity, name: &str) -> bool {
    matches!(e.get_values(&name.to_string()).map(|v| v.as_slice()), Some([Value::Bool(true)]))
}

#[test]
fn read_after_put_sees_buffered_version() {
    let vars = CallbackSharedData::default();
    let mut tnx = Transaction::default();
    let rc = fn_callback_put_individual(&mut tnx, "t".to_string(), entity("d:1", "v:a", vec![Value::Str("new".to_string())]));
    assert_eq!(rc, Some(ResultCode::Success));
    match fn_callback_get_individual(&vars, &tnx, &"d:1".to_string()) {
        Resolved::Found(e) => assert_eq!(first_str(&e, "v:a"), Some("new".to_string())),
        _ => panic!("expected the buffered entity"),
    }
}

#[test]
fn reads_resolve_by_precedence() {
    let mut vars = CallbackSharedData::default();
    vars.set_indv("$doc", entity("d:5", "v:a", vec![Value::Str("s".to_string())]));
    let tnx = Transaction::default();
    assert!(matches!(fn_callback_get_individual(&vars, &tnx, &"undefined".to_string()), Resolved::Undefined));
    assert!(matches!(fn_callback_get_individual(&vars, &tnx, &"$none".to_string()), Resolved::Undefined));
    match fn_callback_get_individual(&vars, &tnx, &"$doc".to_string()) {
        Resolved::Found(e) => assert_eq!(e.id, "d:5"),
        _ => panic!("expected the session binding"),
    }
    assert!(matches!(fn_callback_get_individual(&vars, &tnx, &"d:5".to_string()), Resolved::FetchFromStore));
}

#[test]
fn list_reads_resolve_each_id_in_order() {
    let mut tnx = Transaction::default();
    fn_callback_put_individual(&mut tnx, "t".to_string(), entity("d:2", "v:a", vec![]));
    let ids = vec!["d:1".to_string(), "d:2".to_string(), "d:3".to_string()];
    let r = fn_callback_get_individuals(&tnx, &ids);
    assert_eq!(r.len(), 3);
    assert!(matches!(r[0], Resolved::FetchFromStore));
    assert!(matches!(&r[1], Resolved::Found(e) if e.id == "d:2"));
    assert!(matches!(r[2], Resolved::FetchFromStore));
}

#[test]
fn store_answers_become_read_outcomes() {
    assert!(matches!(read_outcome(FetchResult::Found(Entity::new("d:1"))), ReadOutcome::Found(e) if e.id == "d:1"));
    assert!(matches!(read_outcome(FetchResult::NotFound), ReadOutcome::Missing));
    assert!(matches!(read_outcome(FetchResult::Unparsable), ReadOutcome::Error(ResultCode::UnprocessableEntity)));
    assert!(matches!(read_outcome(FetchResult::Failed), ReadOutcome::Error(ResultCode::TransportError)));
}

#[test]
fn permission_statement_lists_granted_rights() {
    let p = fn_callback_get_rights(Some(2 | 8));
    assert_eq!(p.id, "_");
    assert_eq!(first_str(&p, "rdf:type"), Some("v-s:PermissionStatement".to_string()));
    assert!(is_true(&p, "v-s:canRead"));
    assert!(is_true(&p, "v-s:canDelete"));
    assert!(p.get_values(&"v-s:canCreate".to_string()).is_none());
    assert!(p.get_values(&"v-s:canUpdate".to_string()).is_none());
}

#[test]
fn no_authorization_answer_means_no_rights() {
    let p = fn_callback_get_rights(None);
    assert_eq!(first_str(&p, "rdf:type"), Some("v-s:PermissionStatement".to_string()));
    for name in ["v-s:canCreate", "v-s:canRead", "v-s:canUpdate", "v-s:canDelete"] {
        assert!(p.get_values(&name.to_string()).is_none());
    }
    let all = fn_callback_get_rights(Some(15));
    assert!(is_true(&all, "v-s:canCreate") && is_true(&all, "v-s:canUpdate"));
}

#[test]
fn query_defaults_apply_to_missing_arguments() {
    let mut tnx = Transaction::default();
    tnx.sys_ticket = "sys".to_string();
    let q = fn_callback_query(&tnx, String::new(), "'rdf:type'=='v-s:A'".to_string(), 0, Some("x".to_string()), None, Some(5), None, None);
    assert_eq!(q.ticket, "sys");
    assert_eq!(q.query, "'rdf:type'=='v-s:A'");
    assert_eq!(q.sort, "");
    assert_eq!(q.top, DEFAULT_TOP);
    assert_eq!(q.top, 100000);
    assert_eq!(q.limit, 100000);
    assert_eq!(q.from, 0);
}

#[test]
fn query_takes_supplied_arguments_in_position() {
    let tnx = Transaction::default();
    let q = fn_callback_query(
        &tnx,
        "user".to_string(),
        "q".to_string(),
        5,
        Some("'v-s:created' desc".to_string()),
        Some("base".to_string()),
        Some(10),
        None,
        Some(20),
    );
    assert_eq!(q.ticket, "user");
    assert_eq!(q.sort, "'v-s:created' desc");
    assert_eq!(q.databases, "base");
    assert_eq!(q.top, 10);
    assert_eq!(q.limit, 100000);
    assert_eq!(q.from, 20);
    let q = fn_callback_query(&tnx, "u".to_string(), "q".to_string(), 3, None, Some("db".to_string()), Some(7), Some(8), Some(9));
    assert_eq!(q.databases, "db");
    assert_eq!(q.top, 7);
    assert_eq!(q.limit, 100000);
    assert_eq!(q.from, 0);
}

#[test]
fn mutation_without_id_is_ignored() {
    let mut tnx = Transaction::default();
    assert_eq!(fn_callback_update(IndvOp::Put, &mut tnx, "t".to_string(), Entity::new(""), None), None);
    assert_eq!(fn_callback_remove_individual(&mut tnx, "t".to_string(), ""), None);
    assert!(tnx.queue.is_empty());
}

#[test]
fn mutation_without_ticket_runs_under_system_ticket() {
    let mut tnx = Transaction::default();
    tnx.sys_ticket = "sys".to_string();
    fn_callback_put_individual(&mut tnx, String::new(), Entity::new("d:1"));
    fn_callback_remove_individual(&mut tnx, "own".to_string(), "d:2");
    assert_eq!(tnx.queue[0].ticket_id, "sys");
    assert_eq!(tnx.queue[1].ticket_id, "own");
    assert_eq!(tnx.queue[1].indv.id, "d:2");
}

#[test]
fn incremental_host_functions_merge() {
    let mut tnx = Transaction::default();
    fn_callback_put_individual(&mut tnx, "t".to_string(), entity("d:1", "v:a", vec![Value::Int(1)]));
    let rc = fn_callback_add_to_individual(&mut tnx, "t".to_string(), entity("d:1", "v:a", vec![Value::Int(2)]), None);
    assert_eq!(rc, Some(ResultCode::Success));
    let rc = fn_callback_remove_from_individual(&mut tnx, "t".to_string(), entity("d:1", "v:a", vec![Value::Int(1)]), None);
    assert_eq!(rc, Some(ResultCode::Success));
    let rc = fn_callback_set_in_individual(&mut tnx, "t".to_string(), entity("d:1", "v:b", vec![Value::Bool(false)]), None);
    assert_eq!(rc, Some(ResultCode::Success));
    let e = tnx.get_indv(&"d:1".to_string()).unwrap();
    assert!(matches!(e.get_values(&"v:a".to_string()).map(|v| v.as_slice()), Some([Value::Int(2)])));
    assert!(matches!(e.get_values(&"v:b".to_string()).map(|v| v.as_slice()), Some([Value::Bool(false)])));
    let rc = fn_callback_set_in_individual(&mut tnx, "t".to_string(), entity("d:9", "v:b", vec![]), Some(FetchResult::NotFound));
    assert_eq!(rc, Some(ResultCode::NotFound));
}

#[test]
fn env_vars() {
    let mut vars = CallbackSharedData::default();
    vars.set_attr("$ticket", "abc".to_string());
    assert_eq!(fn_callback_get_env_str_var(&vars, &"$ticket".to_string()), Some("abc".to_string()));
    assert_eq!(fn_callback_get_env_str_var(&vars, &"$other".to_string()), None);
    assert_eq!(fn_callback_get_env_num_var(&vars, &"$ticket".to_string()), None);
}

#[test]
fn print_joins_arguments() {
    assert_eq!(fn_callback_print(&vec!["a".to_string(), "bc".to_string()]), "a bc ");
    assert_eq!(fn_callback_print(&vec![]), "");
}
