use script_host::api::{IndvOp, ResultCode};
use script_host::entity::{Entity, Value};
use script_host::session_cache::{commit, CommitStep, FetchResult, Transaction, TransactionItem};

fn entity(id: &str, preds: Vec<(&str, Vec<Value>)>) -> Entity {
    let mut e = Entity::new(id);
    for (name, vals) in preds {
        e.apply_predicate(IndvOp::SetIn, &name.to_string(), &vals);
    }
    e
}

fn strs(e: &Entity, name: &str) -> Option<Vec<String>> {
    e.get_values(&name.to_string()).map(|vals| {
        vals.iter()
            .map(|v| match v {
                Value::Str(s) | Value::Uri(s) => s.clone(),
                Value::Int(i) => i.to_string(),
                Value::Bool(b) => b.to_string(),
            })
            .collect()
    })
}

/// Runs a commit against a store that records the ids it is sent and
/// answers with `reply_for`.
fn run_commit(tnx: &Transaction, reply_for: impl Fn(&str) -> ResultCode) -> (ResultCode, Vec<String>) {
    let mut sent = Vec::new();
    let mut from = 0;
    let mut reply = ResultCode::Success;
    loop {
        match commit(tnx, from, reply) {
            CommitStep::Send(i) => {
                let id = tnx.queue[i].indv.id.clone();
                reply = reply_for(&id);
                sent.push(id);
                from = i + 1;
            },
            CommitStep::Done(rc) => return (rc, sent),
        }
    }
}

fn put(tnx: &mut Transaction, e: Entity) -> ResultCode {
    tnx.add_to_transaction(IndvOp::Put, e, "ticket".to_string(), String::new(), None)
}

#[test]
fn puts_on_distinct_ids_commit_once_each_in_order() {
    let mut tnx = Transaction::default();
    for id in ["d:one", "d:two", "d:three"] {
        assert_eq!(put(&mut tnx, entity(id, vec![])), ResultCode::Success);
    }
    let (rc, sent) = run_commit(&tnx, |_| ResultCode::Success);
    assert_eq!(rc, ResultCode::Success);
    assert_eq!(sent, vec!["d:one", "d:two", "d:three"]);
}

#[test]
fn add_to_then_set_in_merges_in_order_with_one_fetch() {
    let mut tnx = Transaction::default();
    let stored = entity("d:1", vec![("v:a", vec![Value::Str("x".to_string())])]);
    let add = entity("d:1", vec![("v:a", vec![Value::Str("y".to_string())]), ("v:b", vec![Value::Int(1)])]);
    let set = entity("d:1", vec![("v:a", vec![Value::Str("z".to_string())])]);

    assert!(tnx.needs_fetch(IndvOp::AddTo, &add));
    let rc = tnx.add_to_transaction(IndvOp::AddTo, add, "t".to_string(), String::new(), Some(FetchResult::Found(stored)));
    assert_eq!(rc, ResultCode::Success);
    let after_add = tnx.get_indv(&"d:1".to_string()).unwrap();
    assert_eq!(strs(after_add, "v:a"), Some(vec!["x".to_string(), "y".to_string()]));

    assert!(!tnx.needs_fetch(IndvOp::SetIn, &set));
    let rc = tnx.add_to_transaction(IndvOp::SetIn, set, "t".to_string(), String::new(), None);
    assert_eq!(rc, ResultCode::Success);

    let merged = tnx.get_indv(&"d:1".to_string()).unwrap();
    assert_eq!(strs(merged, "v:a"), Some(vec!["z".to_string()]));
    assert_eq!(strs(merged, "v:b"), Some(vec!["1".to_string()]));
    assert_eq!(tnx.queue.len(), 2);
    assert!(tnx.queue.iter().all(|it| it.cmd == IndvOp::Put));
    assert_eq!(strs(&tnx.queue[0].indv, "v:a"), Some(vec!["z".to_string()]));
}

#[test]
fn remove_from_on_missing_id_is_not_found() {
    let mut tnx = Transaction::default();
    let diff = entity("d:gone", vec![("v:a", vec![Value::Bool(true)])]);
    assert!(tnx.needs_fetch(IndvOp::RemoveFrom, &diff));
    let rc = tnx.add_to_transaction(IndvOp::RemoveFrom, diff, "t".to_string(), String::new(), Some(FetchResult::NotFound));
    assert_eq!(rc, ResultCode::NotFound);
    assert!(tnx.queue.is_empty());
    let (rc, sent) = run_commit(&tnx, |_| ResultCode::Success);
    assert_eq!(rc, ResultCode::Success);
    assert!(sent.is_empty());
}

#[test]
fn failing_item_in_middle_stops_commit() {
    let mut tnx = Transaction::default();
    tnx.queue.push(TransactionItem::new(IndvOp::Put, entity("d:1", vec![]), "t".to_string(), ResultCode::Success));
    tnx.queue.push(TransactionItem::new(IndvOp::Put, entity("d:2", vec![]), "t".to_string(), ResultCode::UnprocessableEntity));
    tnx.queue.push(TransactionItem::new(IndvOp::Put, entity("d:3", vec![]), "t".to_string(), ResultCode::Success));
    let (rc, sent) = run_commit(&tnx, |_| ResultCode::Success);
    assert_eq!(rc, ResultCode::UnprocessableEntity);
    assert_eq!(sent, vec!["d:1"]);
}

#[test]
fn failed_update_aborts_commit() {
    let mut tnx = Transaction::default();
    for id in ["d:1", "d:2", "d:3"] {
        put(&mut tnx, entity(id, vec![]));
    }
    let (rc, sent) = run_commit(&tnx, |id| if id == "d:2" { ResultCode::TransportError } else { ResultCode::Success });
    assert_eq!(rc, ResultCode::TransportError);
    assert_eq!(sent, vec!["d:1", "d:2"]);
}

#[test]
fn commit_skips_empty_removals_and_short_ids() {
    let mut tnx = Transaction::default();
    tnx.queue.push(TransactionItem::new(IndvOp::Remove, entity("", vec![]), "t".to_string(), ResultCode::NotFound));
    put(&mut tnx, entity("x", vec![]));
    put(&mut tnx, entity("d:ok", vec![]));
    let (rc, sent) = run_commit(&tnx, |_| ResultCode::Success);
    assert_eq!(rc, ResultCode::Success);
    assert_eq!(sent, vec!["d:ok"]);
    assert_eq!(commit(&tnx, 0, ResultCode::NotFound), CommitStep::Done(ResultCode::NotFound));
}

#[test]
fn failed_fetches_give_their_status() {
    let mut tnx = Transaction::default();
    let diff = entity("d:1", vec![]);
    let rc = tnx.add_to_transaction(IndvOp::AddTo, diff, "t".to_string(), String::new(), Some(FetchResult::Unparsable));
    assert_eq!(rc, ResultCode::UnprocessableEntity);
    let diff = entity("d:1", vec![]);
    let rc = tnx.add_to_transaction(IndvOp::SetIn, diff, "t".to_string(), String::new(), Some(FetchResult::Failed));
    assert_eq!(rc, ResultCode::TransportError);
    assert!(tnx.queue.is_empty());
}

#[test]
fn removal_is_queued_under_no_id() {
    let mut tnx = Transaction::default();
    put(&mut tnx, entity("d:1", vec![]));
    let rc = tnx.add_to_transaction(IndvOp::Remove, entity("d:1", vec![]), "t".to_string(), String::new(), None);
    assert_eq!(rc, ResultCode::Success);
    assert_eq!(tnx.queue.len(), 2);
    assert_eq!(tnx.queue[1].uri, "");
    assert_eq!(tnx.queue[1].cmd, IndvOp::Remove);
    assert!(tnx.get_indv(&"d:1".to_string()).is_some());
    let (_, sent) = run_commit(&tnx, |_| ResultCode::Success);
    assert_eq!(sent, vec!["d:1", "d:1"]);
}

#[test]
fn remove_from_drops_values_and_add_to_appends() {
    let mut tnx = Transaction::default();
    let stored = entity("d:1", vec![("v:a", vec![Value::Int(1), Value::Int(2), Value::Int(1), Value::Int(3)])]);
    let diff = entity("d:1", vec![("v:a", vec![Value::Int(1)]), ("v:c", vec![Value::Int(9)])]);
    let rc = tnx.add_to_transaction(IndvOp::RemoveFrom, diff, "t".to_string(), String::new(), Some(FetchResult::Found(stored)));
    assert_eq!(rc, ResultCode::Success);
    let e = tnx.get_indv(&"d:1".to_string()).unwrap();
    assert_eq!(strs(e, "v:a"), Some(vec!["2".to_string(), "3".to_string()]));
    assert_eq!(strs(e, "v:c"), Some(vec![]));
    let add = entity("d:1", vec![("v:a", vec![Value::Int(4)])]);
    tnx.add_to_transaction(IndvOp::AddTo, add, "t".to_string(), String::new(), None);
    let e = tnx.get_indv(&"d:1".to_string()).unwrap();
    assert_eq!(strs(e, "v:a"), Some(vec!["2".to_string(), "3".to_string(), "4".to_string()]));
    assert_eq!(tnx.queue[1].ticket_id, "t");
}

#[test]
fn result_codes_as_integers() {
    assert_eq!(ResultCode::Success.code(), 200);
    assert_eq!(ResultCode::InvalidArgument.code(), 400);
    assert_eq!(ResultCode::NotFound.code(), 404);
    assert_eq!(ResultCode::UnprocessableEntity.code(), 422);
    assert_eq!(ResultCode::TransportError.code(), 503);
}
