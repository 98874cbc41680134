//! The decisions behind the host functions that scripts call. Each takes
//! the arguments as plain values and the session state, and says what the
//! script gets back; reaching the backing store is left to the caller,
//! which hands the answer back where a decision needs it.
use vstd::prelude::*;
use vstd::string::{StrSliceExecFns, StringExecFns};
use crate::api::{IndvOp, ResultCode};
use crate::assoc::lookup;
use crate::entity::{Entity, EntityModel, Value, ValueModel};
use crate::session_cache::{
    add_step, buffered, fetch_needed, put_then_read_sees_buffer, CallbackSharedData, FetchResult,
    ItemModel, Transaction,
};

verus! {

/// Where a read of an entity by id is answered from.
pub enum Resolved {
    /// Nothing is returned to the script.
    Undefined,
    Found(Entity),
    /// Neither the session nor the transaction has it: ask the backing store.
    FetchFromStore,
}

pub enum ResolvedModel {
    Undefined,
    Found(EntityModel),
    FetchFromStore,
}

impl View for Resolved {
    type V = ResolvedModel;

    open spec fn view(&self) -> ResolvedModel {
        match self {
            Resolved::Undefined => ResolvedModel::Undefined,
            Resolved::Found(e) => ResolvedModel::Found(e@),
            Resolved::FetchFromStore => ResolvedModel::FetchFromStore,
        }
    }
}

/// Whether `id` names a script-local session binding.
pub open spec fn is_session_key(id: Seq<char>) -> bool {
    id.len() > 0 && id[0] == '$'
}

/// How a read of `id` is answered: a session key from the session's
/// bindings, any other id from the transaction's buffer, else from the store.
pub open spec fn resolve_spec(
    indvs: Seq<(Seq<char>, EntityModel)>,
    q: Seq<ItemModel>,
    id: Seq<char>,
) -> ResolvedModel {
    if id == "undefined"@ {
        ResolvedModel::Undefined
    } else if is_session_key(id) {
        match lookup(indvs, id) {
            Some(e) => ResolvedModel::Found(e),
            None => ResolvedModel::Undefined,
        }
    } else {
        match buffered(q, id) {
            Some(e) => ResolvedModel::Found(e),
            None => ResolvedModel::FetchFromStore,
        }
    }
}

fn starts_with_sigil(id: &String) -> (r: bool)
    ensures
        r == is_session_key(id@),
{
    let s = id.as_str();
    s.unicode_len() > 0 && s.get_char(0) == '$'
}

/// Resolves a read of the entity `id` for a script.
pub fn fn_callback_get_individual(vars: &CallbackSharedData, tnx: &Transaction, id: &String) -> (r:
    Resolved)
    ensures
        r@ == resolve_spec(vars.indvs(), tnx@, id@),
{
    let undefined = String::from_str("undefined");
    if *id == undefined {
        Resolved::Undefined
    } else if starts_with_sigil(id) {
        match vars.get_indv(id) {
            Some(e) => Resolved::Found(e.duplicate()),
            None => Resolved::Undefined,
        }
    } else {
        match tnx.get_indv(id) {
            Some(e) => Resolved::Found(e.duplicate()),
            None => Resolved::FetchFromStore,
        }
    }
}

/// How a read of `id` in a list is answered: from the transaction's buffer,
/// else from the store.
pub open spec fn resolve_listed(q: Seq<ItemModel>, id: Seq<char>) -> ResolvedModel {
    match buffered(q, id) {
        Some(e) => ResolvedModel::Found(e),
        None => ResolvedModel::FetchFromStore,
    }
}

/// Resolves a read of each of `ids`, in order.
pub fn fn_callback_get_individuals(tnx: &Transaction, ids: &Vec<String>) -> (r: Vec<Resolved>)
    ensures
        r.len() == ids.len(),
        forall|j: int| 0 <= j < ids.len() ==> (#[trigger] r@[j])@ == resolve_listed(tnx@, ids@[j]@),
{
    let mut out: Vec<Resolved> = Vec::new();
    let mut i: usize = 0;
    while i < ids.len()
        invariant
            i <= ids.len(),
            out.len() == i,
            forall|j: int| 0 <= j < i ==> (#[trigger] out@[j])@ == resolve_listed(tnx@, ids@[j]@),
        decreases ids.len() - i,
    {
        let res = match tnx.get_indv(&ids[i]) {
            Some(e) => Resolved::Found(e.duplicate()),
            None => Resolved::FetchFromStore,
        };
        out.push(res);
        i += 1;
    }
    out
}

/// What a script gets from a read that reached the backing store.
pub enum ReadOutcome {
    Found(Entity),
    /// The store has no such entity: the script gets an empty result.
    Missing,
    /// The read fails with this status, raised to the script.
    Error(ResultCode),
}

/// Turns the store's answer to a fetch into what the reading script gets.
pub fn read_outcome(fetched: FetchResult) -> (r: ReadOutcome)
    ensures
        match fetched {
            FetchResult::Found(e) => r matches ReadOutcome::Found(x) && x@ == e@,
            FetchResult::NotFound => r matches ReadOutcome::Missing,
            FetchResult::Unparsable => r == ReadOutcome::Error(ResultCode::UnprocessableEntity),
            FetchResult::Failed => r == ReadOutcome::Error(ResultCode::TransportError),
        },
{
    match fetched {
        FetchResult::Found(e) => ReadOutcome::Found(e),
        FetchResult::NotFound => ReadOutcome::Missing,
        FetchResult::Unparsable => ReadOutcome::Error(ResultCode::UnprocessableEntity),
        FetchResult::Failed => ReadOutcome::Error(ResultCode::TransportError),
    }
}

/// The session attribute `var_name`, if set.
pub fn fn_callback_get_env_str_var(vars: &CallbackSharedData, var_name: &String) -> (r: Option<
    String,
>)
    ensures
        match r {
            Some(v) => lookup(vars.attrs(), var_name@) == Some(v@),
            None => lookup(vars.attrs(), var_name@) is None,
        },
{
    match vars.get_attr(var_name) {
        Some(v) => Some(v.clone()),
        None => None,
    }
}

/// Numeric session attributes are not kept: there is never a value.
pub fn fn_callback_get_env_num_var(_vars: &CallbackSharedData, _var_name: &String) -> (r: Option<i64>)
    ensures
        r is None,
{
    None
}

/// The line that `print` logs: each argument followed by a space.
pub open spec fn print_line(args: Seq<Seq<char>>) -> Seq<char>
    decreases args.len(),
{
    if args.len() == 0 {
        Seq::empty()
    } else {
        print_line(args.drop_last()) + args.last() + seq![' ']
    }
}

pub fn fn_callback_print(args: &Vec<String>) -> (r: String)
    ensures
        r@ == print_line(args@.map_values(|s: String| s@)),
{
    let ghost model = args@.map_values(|s: String| s@);
    let mut out = String::new();
    let mut i: usize = 0;
    while i < args.len()
        invariant
            i <= args.len(),
            model == args@.map_values(|s: String| s@),
            out@ == print_line(model.subrange(0, i as int)),
        decreases args.len() - i,
    {
        out.append(args[i].as_str());
        out.append(" ");
        proof {
            reveal_strlit(" ");
            assert(" "@ =~= seq![' ']);
            let sub = model.subrange(0, i as int + 1);
            assert(sub.drop_last() =~= model.subrange(0, i as int));
            assert(out@ =~= print_line(sub));
        }
        i += 1;
    }
    assert(model.subrange(0, args.len() as int) =~= model);
    out
}

/// The ticket a mutation or query runs under: the given one, or the
/// transaction's system ticket where none is given.
pub open spec fn effective_ticket(tnx: Transaction, ticket: Seq<char>) -> Seq<char> {
    if ticket.len() == 0 {
        tnx.sys_ticket@
    } else {
        ticket
    }
}

/// Queues the mutation `opt` on `indv` for a script. An entity without an
/// id is no mutation: nothing is queued and there is no status. Otherwise
/// the status of `Transaction::add_to_transaction` comes back.
pub fn fn_callback_update(
    opt: IndvOp,
    tnx: &mut Transaction,
    ticket: String,
    indv: Entity,
    fetched: Option<FetchResult>,
) -> (r: Option<ResultCode>)
    requires
        fetch_needed(old(tnx)@, opt, indv@) ==> fetched is Some,
    ensures
        indv@.id.len() == 0 ==> r is None && *final(tnx) == *old(tnx),
        indv@.id.len() != 0 ==> (r matches Some(rc) && add_step(
            old(tnx)@,
            opt,
            indv@,
            effective_ticket(*old(tnx), ticket@),
            match fetched {
                Some(f) => Some(f@),
                None => None,
            },
            rc,
            final(tnx)@,
        )),
        final(tnx).sys_ticket == old(tnx).sys_ticket,
{
    if indv.id.as_str().unicode_len() == 0 {
        return None;
    }
    let ticket = if ticket.as_str().unicode_len() == 0 {
        tnx.sys_ticket.clone()
    } else {
        ticket
    };
    let rc = tnx.add_to_transaction(opt, indv, ticket, String::new(), fetched);
    Some(rc)
}

/// Queues a put of `indv`.
pub fn fn_callback_put_individual(tnx: &mut Transaction, ticket: String, indv: Entity) -> (r: Option<
    ResultCode,
>)
    ensures
        indv@.id.len() == 0 ==> r is None && *final(tnx) == *old(tnx),
        indv@.id.len() != 0 ==> r == Some(ResultCode::Success) && add_step(
            old(tnx)@,
            IndvOp::Put,
            indv@,
            effective_ticket(*old(tnx), ticket@),
            None,
            ResultCode::Success,
            final(tnx)@,
        ),
{
    fn_callback_update(IndvOp::Put, tnx, ticket, indv, None)
}

/// Queues the removal of the entity `id`.
pub fn fn_callback_remove_individual(tnx: &mut Transaction, ticket: String, id: &str) -> (r: Option<
    ResultCode,
>)
    ensures
        id@.len() == 0 ==> r is None && *final(tnx) == *old(tnx),
        id@.len() != 0 ==> r == Some(ResultCode::Success) && add_step(
            old(tnx)@,
            IndvOp::Remove,
            EntityModel { id: id@, preds: Seq::empty() },
            effective_ticket(*old(tnx), ticket@),
            None,
            ResultCode::Success,
            final(tnx)@,
        ),
{
    let indv = Entity::new(id);
    fn_callback_update(IndvOp::Remove, tnx, ticket, indv, None)
}

/// Queues an add-to of the values of `indv`.
pub fn fn_callback_add_to_individual(
    tnx: &mut Transaction,
    ticket: String,
    indv: Entity,
    fetched: Option<FetchResult>,
) -> (r: Option<ResultCode>)
    requires
        fetch_needed(old(tnx)@, IndvOp::AddTo, indv@) ==> fetched is Some,
    ensures
        indv@.id.len() == 0 ==> r is None && *final(tnx) == *old(tnx),
        indv@.id.len() != 0 ==> (r matches Some(rc) && add_step(
            old(tnx)@,
            IndvOp::AddTo,
            indv@,
            effective_ticket(*old(tnx), ticket@),
            match fetched {
                Some(f) => Some(f@),
                None => None,
            },
            rc,
            final(tnx)@,
        )),
{
    fn_callback_update(IndvOp::AddTo, tnx, ticket, indv, fetched)
}

/// Queues a set-in of the values of `indv`.
pub fn fn_callback_set_in_individual(
    tnx: &mut Transaction,
    ticket: String,
    indv: Entity,
    fetched: Option<FetchResult>,
) -> (r: Option<ResultCode>)
    requires
        fetch_needed(old(tnx)@, IndvOp::SetIn, indv@) ==> fetched is Some,
    ensures
        indv@.id.len() == 0 ==> r is None && *final(tnx) == *old(tnx),
        indv@.id.len() != 0 ==> (r matches Some(rc) && add_step(
            old(tnx)@,
            IndvOp::SetIn,
            indv@,
            effective_ticket(*old(tnx), ticket@),
            match fetched {
                Some(f) => Some(f@),
                None => None,
            },
            rc,
            final(tnx)@,
        )),
{
    fn_callback_update(IndvOp::SetIn, tnx, ticket, indv, fetched)
}

/// Queues a remove-from of the values of `indv`.
pub fn fn_callback_remove_from_individual(
    tnx: &mut Transaction,
    ticket: String,
    indv: Entity,
    fetched: Option<FetchResult>,
) -> (r: Option<ResultCode>)
    requires
        fetch_needed(old(tnx)@, IndvOp::RemoveFrom, indv@) ==> fetched is Some,
    ensures
        indv@.id.len() == 0 ==> r is None && *final(tnx) == *old(tnx),
        indv@.id.len() != 0 ==> (r matches Some(rc) && add_step(
            old(tnx)@,
            IndvOp::RemoveFrom,
            indv@,
            effective_ticket(*old(tnx), ticket@),
            match fetched {
                Some(f) => Some(f@),
                None => None,
            },
            rc,
            final(tnx)@,
        )),
{
    fn_callback_update(IndvOp::RemoveFrom, tnx, ticket, indv, fetched)
}

/// The values a permission statement holds for a right: `true` where the
/// right is among `rights`, nothing otherwise.
pub open spec fn right_values(rights: u8, bit: u8) -> Option<Seq<ValueModel>> {
    if rights & bit != 0 {
        Some(seq![ValueModel::Bool(true)])
    } else {
        None
    }
}

fn add_right(pstm: &mut Entity, rights: u8, bit: u8, name: &str)
    ensures
        final(pstm)@.id == old(pstm)@.id,
        forall|m: Seq<char>|
            #[trigger] lookup(final(pstm)@.preds, m) == if m == name@ && rights & bit != 0 {
                Some(seq![ValueModel::Bool(true)])
            } else {
                lookup(old(pstm)@.preds, m)
            },
{
    if rights & bit != 0 {
        let vals = vec![Value::Bool(true)];
        assert(crate::entity::values_view(vals@) =~= seq![ValueModel::Bool(true)]);
        pstm.apply_predicate(IndvOp::SetIn, &name.to_owned(), &vals);
    }
}

/// The permission statement handed to a script for the rights that the
/// authorization service granted; no answer counts as no rights. It holds
/// its type and one `true` per granted right among create, read, update
/// and delete.
pub fn fn_callback_get_rights(rights: Option<u8>) -> (r: Entity)
    ensures
        r@.id == "_"@,
        lookup(r@.preds, "rdf:type"@) == Some(seq![ValueModel::Uri("v-s:PermissionStatement"@)]),
        lookup(r@.preds, "v-s:canCreate"@) == right_values(rights.unwrap_or(0), 1),
        lookup(r@.preds, "v-s:canRead"@) == right_values(rights.unwrap_or(0), 2),
        lookup(r@.preds, "v-s:canUpdate"@) == right_values(rights.unwrap_or(0), 4),
        lookup(r@.preds, "v-s:canDelete"@) == right_values(rights.unwrap_or(0), 8),
{
    let granted: u8 = match rights {
        Some(g) => g,
        None => 0,
    };
    let mut pstm = Entity::new("_");
    let kind = vec![Value::Uri("v-s:PermissionStatement".to_owned())];
    assert(crate::entity::values_view(kind@) =~= seq![ValueModel::Uri("v-s:PermissionStatement"@)]);
    pstm.apply_predicate(IndvOp::SetIn, &"rdf:type".to_owned(), &kind);
    proof {
        reveal_strlit("rdf:type");
        reveal_strlit("v-s:canCreate");
        reveal_strlit("v-s:canRead");
        reveal_strlit("v-s:canUpdate");
        reveal_strlit("v-s:canDelete");
        assert("rdf:type"@.len() == 8);
        assert("v-s:canRead"@.len() == 11);
        assert("v-s:canCreate"@.len() == 13);
        assert("v-s:canUpdate"@.len() == 13);
        assert("v-s:canDelete"@.len() == 13);
        assert("v-s:canCreate"@[8] != "v-s:canUpdate"@[8]);
        assert("v-s:canCreate"@[8] != "v-s:canDelete"@[8]);
        assert("v-s:canUpdate"@[8] != "v-s:canDelete"@[8]);
        assert("v-s:canCreate"@ != "v-s:canUpdate"@);
        assert("v-s:canCreate"@ != "v-s:canDelete"@);
        assert("v-s:canUpdate"@ != "v-s:canDelete"@);
    }
    let ghost typed = pstm@.preds;
    assert(lookup(typed, "rdf:type"@) == Some(seq![ValueModel::Uri("v-s:PermissionStatement"@)]));
    add_right(&mut pstm, granted, 1, "v-s:canCreate");
    add_right(&mut pstm, granted, 2, "v-s:canRead");
    add_right(&mut pstm, granted, 4, "v-s:canUpdate");
    add_right(&mut pstm, granted, 8, "v-s:canDelete");
    proof {
        lemma_lookup_absent_empty();
    }
    pstm
}

proof fn lemma_lookup_absent_empty()
    ensures
        forall|m: Seq<char>|
            #[trigger] lookup(Seq::<(Seq<char>, Seq<ValueModel>)>::empty(), m) is None,
{
}

/// A search request.
pub struct FtQuery {
    pub ticket: String,
    pub query: String,
    pub sort: String,
    pub databases: String,
    pub top: i32,
    pub limit: i32,
    pub from: i32,
}

/// The count of results asked for where the script names none.
pub const DEFAULT_TOP: i32 = 100000;

/// The value of an optional text argument: empty where it was not
/// supplied or had no value.
pub open spec fn text_arg(supplied: bool, arg: Option<String>) -> Seq<char> {
    match arg {
        Some(a) if supplied => a@,
        _ => Seq::empty(),
    }
}

/// The value of an optional number argument, or `dflt`.
pub open spec fn number_arg(supplied: bool, arg: Option<i32>, dflt: i32) -> i32 {
    match arg {
        Some(a) if supplied => a,
        _ => dflt,
    }
}

/// Builds the search request of a script's `query` call. Of the optional
/// arguments, sort, databases, top, limit and from, only the first
/// `supplied` were passed; one passed without a value takes its default.
pub fn fn_callback_query(
    tnx: &Transaction,
    ticket: String,
    query: String,
    supplied: usize,
    sort: Option<String>,
    databases: Option<String>,
    top: Option<i32>,
    limit: Option<i32>,
    from: Option<i32>,
) -> (r: FtQuery)
    ensures
        r.ticket@ == effective_ticket(*tnx, ticket@),
        r.query@ == query@,
        r.sort@ == text_arg(supplied >= 1, sort),
        r.databases@ == text_arg(supplied >= 2, databases),
        r.top == number_arg(supplied >= 3, top, DEFAULT_TOP),
        r.limit == number_arg(supplied >= 4, limit, DEFAULT_TOP),
        r.from == number_arg(supplied >= 5, from, 0),
{
    let ticket = if ticket.as_str().unicode_len() == 0 {
        tnx.sys_ticket.clone()
    } else {
        ticket
    };
    let mut q = FtQuery {
        ticket,
        query,
        sort: String::new(),
        databases: String::new(),
        top: DEFAULT_TOP,
        limit: DEFAULT_TOP,
        from: 0,
    };
    if supplied >= 1 {
        if let Some(v) = sort {
            q.sort = v;
        }
        if supplied >= 2 {
            if let Some(v) = databases {
                q.databases = v;
            }
            if supplied >= 3 {
                if let Some(v) = top {
                    q.top = v;
                }
                if supplied >= 4 {
                    if let Some(v) = limit {
                        q.limit = v;
                    }
                    if supplied >= 5 {
                        if let Some(v) = from {
                            q.from = v;
                        }
                    }
                }
            }
        }
    }
    q
}

/// A script that reads an id right after putting an entity under it gets
/// the entity it put, not a version from the backing store.
pub proof fn read_after_put_sees_buffer(
    indvs: Seq<(Seq<char>, EntityModel)>,
    q0: Seq<ItemModel>,
    e: EntityModel,
    ticket: Seq<char>,
    r: ResultCode,
    q1: Seq<ItemModel>,
)
    requires
        add_step(q0, IndvOp::Put, e, ticket, None, r, q1),
        e.id != "undefined"@,
        !is_session_key(e.id),
    ensures
        resolve_spec(indvs, q1, e.id) == ResolvedModel::Found(e),
{
    put_then_read_sees_buffer(q0, e, ticket, None, r, q1);
}

} // verus!
