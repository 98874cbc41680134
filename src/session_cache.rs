use vstd::prelude::*;
use vstd::string::StrSliceExecFns;
use crate::api::{IndvOp, ResultCode};
use crate::assoc::{bind, get_bound, lookup, pairs_view};
use crate::entity::{is_merge, Entity, EntityModel};
use crate::text::{render_list, rendered, split_once_at, split_once_spec};

verus! {

/// One buffered mutation.
pub struct TransactionItem {
    /// Id under which the item is found again; empty for removals.
    pub uri: String,
    pub cmd: IndvOp,
    pub indv: Entity,
    pub ticket_id: String,
    pub rc: ResultCode,
}

/// Mathematical model of a `TransactionItem`.
pub struct ItemModel {
    pub uri: Seq<char>,
    pub cmd: IndvOp,
    pub indv: EntityModel,
    pub ticket: Seq<char>,
    pub rc: ResultCode,
}

impl View for TransactionItem {
    type V = ItemModel;

    open spec fn view(&self) -> ItemModel {
        ItemModel {
            uri: self.uri@,
            cmd: self.cmd,
            indv: self.indv@,
            ticket: self.ticket_id@,
            rc: self.rc,
        }
    }
}

impl TransactionItem {
    /// An item for `indv`, found again under the entity's id (under the
    /// empty id for a removal).
    pub fn new(cmd: IndvOp, indv: Entity, ticket_id: String, rc: ResultCode) -> (r: TransactionItem)
        ensures
            r@ == (ItemModel {
                uri: if cmd == IndvOp::Remove { Seq::empty() } else { indv@.id },
                cmd,
                indv: indv@,
                ticket: ticket_id@,
                rc,
            }),
    {
        let uri = if cmd == IndvOp::Remove { String::new() } else { indv.id.clone() };
        TransactionItem { uri, cmd, indv, ticket_id, rc }
    }
}

/// What the backing store answered to a fetch by id, once parsed.
pub enum FetchResult {
    Found(Entity),
    /// The stored payload could not be parsed.
    Unparsable,
    NotFound,
    /// The request did not complete.
    Failed,
}

pub enum FetchModel {
    Found(EntityModel),
    Unparsable,
    NotFound,
    Failed,
}

impl View for FetchResult {
    type V = FetchModel;

    open spec fn view(&self) -> FetchModel {
        match self {
            FetchResult::Found(e) => FetchModel::Found(e@),
            FetchResult::Unparsable => FetchModel::Unparsable,
            FetchResult::NotFound => FetchModel::NotFound,
            FetchResult::Failed => FetchModel::Failed,
        }
    }
}

/// The mutations buffered by one script session, in the order queued.
pub struct Transaction {
    pub sys_ticket: String,
    pub id: i64,
    pub event_id: String,
    pub queue: Vec<TransactionItem>,
    pub src: String,
}

pub open spec fn queue_view(q: Seq<TransactionItem>) -> Seq<ItemModel> {
    q.map_values(|t: TransactionItem| t@)
}

impl View for Transaction {
    type V = Seq<ItemModel>;

    open spec fn view(&self) -> Seq<ItemModel> {
        queue_view(self.queue@)
    }
}

/// Position of the most recently queued item found under `id`.
pub open spec fn last_index(q: Seq<ItemModel>, id: Seq<char>) -> Option<int>
    decreases q.len(),
{
    if q.len() == 0 {
        None
    } else if q.last().uri == id {
        Some(q.len() - 1)
    } else {
        last_index(q.drop_last(), id)
    }
}

/// The buffered version of the entity `id`, if the queue holds one.
pub open spec fn buffered(q: Seq<ItemModel>, id: Seq<char>) -> Option<EntityModel> {
    match last_index(q, id) {
        Some(i) => Some(q[i].indv),
        None => None,
    }
}

/// Whether queueing `cmd` on `diff` needs the stored version of the entity.
pub open spec fn fetch_needed(q: Seq<ItemModel>, cmd: IndvOp, diff: EntityModel) -> bool {
    cmd.is_incremental() && last_index(q, diff.id) is None
}

/// The item that a successful request queues.
pub open spec fn queued_item(
    cmd: IndvOp,
    indv: EntityModel,
    uri: Seq<char>,
    ticket: Seq<char>,
) -> ItemModel {
    ItemModel { uri, cmd, indv, ticket, rc: ResultCode::Success }
}

/// `q1` and `r` are the queue and the status after requesting `cmd` with
/// `diff` on queue `q0`, where `fetched` is the stored version when needed.
pub open spec fn add_step(
    q0: Seq<ItemModel>,
    cmd: IndvOp,
    diff: EntityModel,
    ticket: Seq<char>,
    fetched: Option<FetchModel>,
    r: ResultCode,
    q1: Seq<ItemModel>,
) -> bool {
    let id = diff.id;
    if cmd == IndvOp::Remove {
        r == ResultCode::Success && q1 == q0.push(queued_item(cmd, diff, Seq::empty(), ticket))
    } else if cmd == IndvOp::Put {
        r == ResultCode::Success && q1 == q0.push(queued_item(cmd, diff, id, ticket))
    } else {
        match last_index(q0, id) {
            Some(i) => {
                &&& r == ResultCode::Success
                &&& q1.len() == q0.len() + 1
                &&& is_merge(cmd, q0[i].indv, diff, q1[i].indv)
                &&& q1.drop_last() == q0.update(
                    i,
                    ItemModel { indv: q1[i].indv, ..q0[i] },
                )
                &&& q1.last() == queued_item(IndvOp::Put, q1[i].indv, id, ticket)
            },
            None => match fetched {
                Some(FetchModel::Found(prev)) => {
                    &&& r == ResultCode::Success
                    &&& q1.len() == q0.len() + 1
                    &&& q1.drop_last() == q0
                    &&& is_merge(cmd, prev, diff, q1.last().indv)
                    &&& q1.last() == queued_item(IndvOp::Put, q1.last().indv, id, ticket)
                },
                Some(FetchModel::Unparsable) => r == ResultCode::UnprocessableEntity && q1 == q0,
                Some(FetchModel::NotFound) => r == ResultCode::NotFound && q1 == q0,
                Some(FetchModel::Failed) => r == ResultCode::TransportError && q1 == q0,
                None => false,
            },
        }
    }
}

proof fn lemma_queue_push(s: Seq<TransactionItem>, x: TransactionItem)
    ensures
        queue_view(s.push(x)) == queue_view(s).push(x@),
{
    assert(queue_view(s.push(x)) =~= queue_view(s).push(x@));
}

impl Default for Transaction {
    fn default() -> (r: Transaction)
        ensures
            r@.len() == 0,
            r.sys_ticket@.len() == 0,
            r.id == 0,
            r.event_id@.len() == 0,
            r.src@.len() == 0,
    {
        let t = Transaction {
            sys_ticket: String::new(),
            id: 0,
            event_id: String::new(),
            queue: Vec::new(),
            src: String::new(),
        };
        assert(t@ =~= Seq::<ItemModel>::empty());
        t
    }
}

impl Transaction {
    fn add_item(&mut self, item: TransactionItem)
        ensures
            final(self)@ == old(self)@.push(item@),
            final(self).sys_ticket == old(self).sys_ticket,
            final(self).id == old(self).id,
            final(self).event_id == old(self).event_id,
            final(self).src == old(self).src,
    {
        proof {
            lemma_queue_push(self.queue@, item);
        }
        self.queue.push(item);
    }

    /// Position of the most recently queued item found under `id`.
    fn find(&self, id: &String) -> (r: Option<usize>)
        ensures
            match r {
                Some(i) => last_index(self@, id@) == Some(i as int) && i < self.queue.len(),
                None => last_index(self@, id@) is None,
            },
    {
        let mut i: usize = self.queue.len();
        assert(self@.subrange(0, i as int) =~= self@);
        while i > 0
            invariant
                i <= self.queue.len(),
                last_index(self@, id@) == last_index(self@.subrange(0, i as int), id@),
            decreases i,
        {
            let ghost sub = self@.subrange(0, i as int);
            assert(sub.drop_last() =~= self@.subrange(0, i as int - 1));
            if self.queue[i - 1].uri == *id {
                return Some(i - 1);
            }
            i -= 1;
        }
        None
    }

    /// The buffered version of entity `id`, if any.
    pub fn get_indv(&self, id: &String) -> (r: Option<&Entity>)
        ensures
            match r {
                Some(e) => buffered(self@, id@) == Some(e@),
                None => buffered(self@, id@) is None,
            },
    {
        match self.find(id) {
            Some(i) => Some(&self.queue[i].indv),
            None => None,
        }
    }

    /// Whether queueing `cmd` on `indv` needs the stored version of the
    /// entity, which the caller then fetches and hands to `add_to_transaction`.
    pub fn needs_fetch(&self, cmd: IndvOp, indv: &Entity) -> (r: bool)
        ensures
            r == fetch_needed(self@, cmd, indv@),
    {
        cmd.is_incremental() && self.find(&indv.id).is_none()
    }

    /// Queues the mutation `cmd` on `new_indv` and returns its status.
    /// Removals and puts are queued as they are. An incremental operation is
    /// merged into the entity's buffered version, which it changes in place,
    /// or else into `fetched`, the stored version; the merged entity is then
    /// queued as a put. A failed fetch queues nothing and gives its status.
    pub fn add_to_transaction(
        &mut self,
        cmd: IndvOp,
        new_indv: Entity,
        ticket_id: String,
        _user_id: String,
        fetched: Option<FetchResult>,
    ) -> (r: ResultCode)
        requires
            fetch_needed(old(self)@, cmd, new_indv@) ==> fetched is Some,
        ensures
            add_step(
                old(self)@,
                cmd,
                new_indv@,
                ticket_id@,
                match fetched {
                    Some(f) => Some(f@),
                    None => None,
                },
                r,
                final(self)@,
            ),
            final(self).sys_ticket == old(self).sys_ticket,
            final(self).id == old(self).id,
            final(self).event_id == old(self).event_id,
            final(self).src == old(self).src,
    {
        if cmd == IndvOp::Remove {
            let item = TransactionItem {
                uri: String::new(),
                cmd,
                indv: new_indv,
                ticket_id,
                rc: ResultCode::Success,
            };
            self.add_item(item);
            return ResultCode::Success;
        }
        let uri = new_indv.id.clone();
        if cmd == IndvOp::Put {
            let item = TransactionItem { uri, cmd, indv: new_indv, ticket_id, rc: ResultCode::Success };
            self.add_item(item);
            return ResultCode::Success;
        }
        match self.find(&uri) {
            Some(i) => {
                let ghost q0 = self@;
                self.queue[i].indv.apply_diff(cmd, &new_indv);
                let ghost q_mid = self@;
                assert(q_mid =~= q0.update(i as int, ItemModel { indv: q_mid[i as int].indv, ..q0[i as int] }));
                let merged = self.queue[i].indv.duplicate();
                let item = TransactionItem { uri, cmd: IndvOp::Put, indv: merged, ticket_id, rc: ResultCode::Success };
                self.add_item(item);
                assert(self@.drop_last() =~= q_mid);
                ResultCode::Success
            },
            None => match fetched {
                Some(FetchResult::Found(prev)) => {
                    let mut prev = prev;
                    prev.apply_diff(cmd, &new_indv);
                    let item = TransactionItem { uri, cmd: IndvOp::Put, indv: prev, ticket_id, rc: ResultCode::Success };
                    let ghost q0 = self@;
                    self.add_item(item);
                    assert(self@.drop_last() =~= q0);
                    ResultCode::Success
                },
                Some(FetchResult::Unparsable) => ResultCode::UnprocessableEntity,
                Some(FetchResult::NotFound) => ResultCode::NotFound,
                Some(FetchResult::Failed) => ResultCode::TransportError,
                None => ResultCode::TransportError,
            },
        }
    }
}

/// What the commit does next: send the item at a position to the backing
/// store, or finish with a status.
#[derive(PartialEq, Eq, Structural, Clone, Copy, Debug)]
pub enum CommitStep {
    Send(usize),
    Done(ResultCode),
}

pub enum StepModel {
    Send(int),
    Done(ResultCode),
}

impl View for CommitStep {
    type V = StepModel;

    open spec fn view(&self) -> StepModel {
        match self {
            CommitStep::Send(i) => StepModel::Send(*i as int),
            CommitStep::Done(c) => StepModel::Done(*c),
        }
    }
}

/// A removal without an id: nothing to apply.
pub open spec fn is_empty_removal(it: ItemModel) -> bool {
    it.cmd == IndvOp::Remove && it.indv.id.len() == 0
}

/// An item whose id is too short to be stored; it is skipped.
pub open spec fn has_short_id(it: ItemModel) -> bool {
    it.indv.id.len() < 2
}

/// The next step of a commit that resumes at position `from` after every
/// earlier update succeeded.
pub open spec fn commit_scan(q: Seq<ItemModel>, from: int) -> StepModel
    decreases q.len() - from,
{
    if from < 0 || from >= q.len() {
        StepModel::Done(ResultCode::Success)
    } else if is_empty_removal(q[from]) {
        commit_scan(q, from + 1)
    } else if q[from].rc != ResultCode::Success {
        StepModel::Done(q[from].rc)
    } else if has_short_id(q[from]) {
        commit_scan(q, from + 1)
    } else {
        StepModel::Send(from)
    }
}

/// The positions sent to the backing store, in order, by a commit from
/// position `from` whose updates all succeed.
pub open spec fn commit_sends(q: Seq<ItemModel>, from: int) -> Seq<int>
    decreases q.len() - from,
{
    if from < 0 || from >= q.len() {
        Seq::empty()
    } else if is_empty_removal(q[from]) {
        commit_sends(q, from + 1)
    } else if q[from].rc != ResultCode::Success {
        Seq::empty()
    } else if has_short_id(q[from]) {
        commit_sends(q, from + 1)
    } else {
        seq![from] + commit_sends(q, from + 1)
    }
}

/// The status of a commit from position `from` whose updates all succeed.
pub open spec fn commit_outcome(q: Seq<ItemModel>, from: int) -> ResultCode
    decreases q.len() - from,
{
    if from < 0 || from >= q.len() {
        ResultCode::Success
    } else if is_empty_removal(q[from]) {
        commit_outcome(q, from + 1)
    } else if q[from].rc != ResultCode::Success {
        q[from].rc
    } else {
        commit_outcome(q, from + 1)
    }
}

/// Drives the commit of `tnx`: given the position to resume from and the
/// backing store's reply to the previous update (`Success` at the start),
/// says whether to send another item or to finish, and with which status.
/// Items go in queue order; an empty removal or an item whose id is shorter
/// than two characters is skipped; an item whose own status is not
/// `Success` ends the commit with that status; so does a failed update.
pub fn commit(tnx: &Transaction, from: usize, reply: ResultCode) -> (r: CommitStep)
    requires
        from <= tnx.queue.len(),
    ensures
        reply != ResultCode::Success ==> r == CommitStep::Done(reply),
        reply == ResultCode::Success ==> r@ == commit_scan(tnx@, from as int),
{
    if reply != ResultCode::Success {
        return CommitStep::Done(reply);
    }
    let mut i: usize = from;
    while i < tnx.queue.len()
        invariant
            from <= i <= tnx.queue.len(),
            reply == ResultCode::Success,
            commit_scan(tnx@, from as int) == commit_scan(tnx@, i as int),
        decreases tnx.queue.len() - i,
    {
        let item = &tnx.queue[i];
        let id_len = item.indv.id.as_str().unicode_len();
        if item.cmd == IndvOp::Remove && id_len == 0 {
            i += 1;
        } else if item.rc != ResultCode::Success {
            return CommitStep::Done(item.rc);
        } else if id_len < 2 {
            i += 1;
        } else {
            return CommitStep::Send(i);
        }
    }
    CommitStep::Done(ResultCode::Success)
}

/// A commit is the sequence of its steps: a step that sends position `i`
/// contributes `i` to the positions sent, and the run goes on after it;
/// a step that finishes ends the run with its status.
pub proof fn commit_run_follows_steps(q: Seq<ItemModel>, from: int)
    requires
        0 <= from <= q.len(),
    ensures
        match commit_scan(q, from) {
            StepModel::Send(i) => from <= i < q.len() && commit_sends(q, from) == seq![i]
                + commit_sends(q, i + 1) && commit_outcome(q, from) == commit_outcome(q, i + 1),
            StepModel::Done(c) => commit_sends(q, from).len() == 0 && commit_outcome(q, from) == c,
        },
    decreases q.len() - from,
{
    if from < q.len() {
        if is_empty_removal(q[from]) || (q[from].rc == ResultCode::Success && has_short_id(q[from])) {
            commit_run_follows_steps(q, from + 1);
        }
    }
}

/// A queue of successful puts on ids of two characters or more is
/// committed whole: every position is sent exactly once, in queue order,
/// and the commit succeeds.
pub proof fn puts_commit_in_queue_order(q: Seq<ItemModel>)
    requires
        forall|j: int|
            0 <= j < q.len() ==> (#[trigger] q[j]).cmd == IndvOp::Put && q[j].rc == ResultCode::Success
                && q[j].indv.id.len() >= 2,
    ensures
        commit_sends(q, 0) == Seq::new(q.len(), |j: int| j),
        commit_outcome(q, 0) == ResultCode::Success,
{
    lemma_all_sent(q, 0);
    assert(Seq::new((q.len() - 0) as nat, |j: int| j + 0) =~= Seq::new(q.len(), |j: int| j));
}

proof fn lemma_all_sent(q: Seq<ItemModel>, from: int)
    requires
        0 <= from <= q.len(),
        forall|j: int|
            0 <= j < q.len() ==> (#[trigger] q[j]).cmd == IndvOp::Put && q[j].rc == ResultCode::Success
                && q[j].indv.id.len() >= 2,
    ensures
        commit_sends(q, from) == Seq::new((q.len() - from) as nat, |j: int| j + from),
        commit_outcome(q, from) == ResultCode::Success,
    decreases q.len() - from,
{
    if from < q.len() {
        lemma_all_sent(q, from + 1);
        assert(commit_sends(q, from) =~= Seq::new((q.len() - from) as nat, |j: int| j + from));
    } else {
        assert(commit_sends(q, from) =~= Seq::new((q.len() - from) as nat, |j: int| j + from));
    }
}

/// A commit over a queue whose item `k` carries a failing status, after
/// items that all succeeded, ends with that status; it sends no item at or
/// after `k`, and sends every earlier item that is neither an empty removal
/// nor under a too-short id.
pub proof fn failing_item_stops_commit(q: Seq<ItemModel>, k: int)
    requires
        0 <= k < q.len(),
        q[k].rc != ResultCode::Success,
        !is_empty_removal(q[k]),
        forall|j: int| 0 <= j < k ==> (#[trigger] q[j]).rc == ResultCode::Success,
    ensures
        commit_outcome(q, 0) == q[k].rc,
        forall|x: int| commit_sends(q, 0).contains(x) ==> 0 <= x < k,
        forall|j: int|
            0 <= j < k && !is_empty_removal(#[trigger] q[j]) && !has_short_id(q[j]) ==> commit_sends(
                q,
                0,
            ).contains(j),
{
    lemma_stops_at(q, k, 0);
}

proof fn lemma_stops_at(q: Seq<ItemModel>, k: int, from: int)
    requires
        0 <= from <= k < q.len(),
        q[k].rc != ResultCode::Success,
        !is_empty_removal(q[k]),
        forall|j: int| 0 <= j < k ==> (#[trigger] q[j]).rc == ResultCode::Success,
    ensures
        commit_outcome(q, from) == q[k].rc,
        forall|x: int| commit_sends(q, from).contains(x) ==> from <= x < k,
        forall|j: int|
            from <= j < k && !is_empty_removal(#[trigger] q[j]) && !has_short_id(q[j])
                ==> commit_sends(q, from).contains(j),
    decreases k - from,
{
    if from < k {
        lemma_stops_at(q, k, from + 1);
        let rest = commit_sends(q, from + 1);
        if !is_empty_removal(q[from]) && !has_short_id(q[from]) {
            assert(commit_sends(q, from) == seq![from] + rest);
            assert forall|x: int| commit_sends(q, from).contains(x) implies from <= x < k by {
                if x != from {
                    let n = choose|n: int| 0 <= n < commit_sends(q, from).len() && commit_sends(q, from)[n] == x;
                    assert(rest[n - 1] == x);
                    assert(rest.contains(x));
                }
            }
            assert forall|j: int|
                from <= j < k && !is_empty_removal(#[trigger] q[j]) && !has_short_id(q[j])
                    implies commit_sends(q, from).contains(j) by {
                if j == from {
                    assert(commit_sends(q, from)[0] == from);
                } else {
                    let n = choose|n: int| 0 <= n < rest.len() && rest[n] == j;
                    assert(commit_sends(q, from)[n + 1] == j);
                }
            }
        }
    }
}

/// Models of a list of strings.
pub open spec fn names_view(v: Seq<String>) -> Seq<Seq<char>> {
    v.map_values(|s: String| s@)
}

/// The ancestor table of an ontology: the types each type derives from.
pub struct Onto {
    pub supers: Vec<(String, Vec<String>)>,
}

/// The ancestors of `type_id` in `onto`.
pub open spec fn supers_of(onto: Onto, type_id: Seq<char>) -> Seq<Seq<char>> {
    match lookup(pairs_view(onto.supers@), type_id) {
        Some(v) => names_view(v),
        None => Seq::empty(),
    }
}

/// `acc` with each of `items` appended, in order, unless already present.
pub open spec fn add_all(acc: Seq<Seq<char>>, items: Seq<Seq<char>>) -> Seq<Seq<char>>
    decreases items.len(),
{
    if items.len() == 0 {
        acc
    } else {
        let a = add_all(acc, items.drop_last());
        if a.contains(items.last()) {
            a
        } else {
            a.push(items.last())
        }
    }
}

/// The ancestors of all of `types`, each once, in the order first met.
pub open spec fn ancestors(onto: Onto, types: Seq<Seq<char>>) -> Seq<Seq<char>>
    decreases types.len(),
{
    if types.len() == 0 {
        Seq::empty()
    } else {
        add_all(ancestors(onto, types.drop_last()), supers_of(onto, types.last()))
    }
}

proof fn lemma_add_all(acc: Seq<Seq<char>>, items: Seq<Seq<char>>)
    requires
        acc.no_duplicates(),
    ensures
        add_all(acc, items).no_duplicates(),
        forall|x: Seq<char>|
            #[trigger] add_all(acc, items).contains(x) <==> acc.contains(x) || items.contains(x),
    decreases items.len(),
{
    if items.len() > 0 {
        let init = items.drop_last();
        lemma_add_all(acc, init);
        let a = add_all(acc, init);
        let last = items.last();
        assert forall|x: Seq<char>| #[trigger] items.contains(x) <==> init.contains(x) || x == last by {
            if items.contains(x) {
                let k = choose|k: int| 0 <= k < items.len() && items[k] == x;
                if k < items.len() - 1 {
                    assert(init[k] == x);
                }
            }
            if init.contains(x) {
                let k = choose|k: int| 0 <= k < init.len() && init[k] == x;
                assert(items[k] == x);
            }
            if x == last {
                assert(items[items.len() - 1] == x);
            }
        }
        if !a.contains(last) {
            let b = a.push(last);
            assert forall|x: Seq<char>| #[trigger] b.contains(x) <==> a.contains(x) || x == last by {
                if b.contains(x) {
                    let k = choose|k: int| 0 <= k < b.len() && b[k] == x;
                    if k < a.len() {
                        assert(a[k] == x);
                    }
                }
                if a.contains(x) {
                    let k = choose|k: int| 0 <= k < a.len() && a[k] == x;
                    assert(b[k] == x);
                }
                if x == last {
                    assert(b[a.len() as int] == x);
                }
            }
            assert forall|i: int, j: int| 0 <= i < b.len() && 0 <= j < b.len() && i != j implies b[i]
                != b[j] by {
                if i == a.len() {
                    assert(a.contains(b[j]));
                } else if j == a.len() {
                    assert(a.contains(b[i]));
                }
            }
        }
    }
}

/// The ancestors of a list of types hold each ancestor of each type, once,
/// and nothing else.
pub proof fn ancestors_listed_once(onto: Onto, types: Seq<Seq<char>>)
    ensures
        ancestors(onto, types).no_duplicates(),
        forall|x: Seq<char>|
            #[trigger] ancestors(onto, types).contains(x) <==> exists|i: int|
                0 <= i < types.len() && supers_of(onto, types[i]).contains(x),
    decreases types.len(),
{
    if types.len() > 0 {
        let init = types.drop_last();
        ancestors_listed_once(onto, init);
        lemma_add_all(ancestors(onto, init), supers_of(onto, types.last()));
        assert forall|x: Seq<char>|
            #[trigger] ancestors(onto, types).contains(x) <==> exists|i: int|
                0 <= i < types.len() && supers_of(onto, types[i]).contains(x) by {
            if ancestors(onto, init).contains(x) {
                let i = choose|i: int| 0 <= i < init.len() && supers_of(onto, init[i]).contains(x);
                assert(types[i] == init[i]);
            }
            if supers_of(onto, types.last()).contains(x) {
                assert(supers_of(onto, types[types.len() - 1]).contains(x));
            }
            if exists|i: int| 0 <= i < types.len() && supers_of(onto, types[i]).contains(x) {
                let i = choose|i: int| 0 <= i < types.len() && supers_of(onto, types[i]).contains(x);
                if i < types.len() - 1 {
                    assert(init[i] == types[i]);
                }
            }
        }
    } else {
        assert(ancestors(onto, types) =~= Seq::<Seq<char>>::empty());
    }
}

proof fn lemma_names_push(s: Seq<String>, x: String)
    ensures
        names_view(s.push(x)) == names_view(s).push(x@),
{
    assert(names_view(s.push(x)) =~= names_view(s).push(x@));
}

pub(crate) fn contains_name(v: &Vec<String>, name: &String) -> (r: bool)
    ensures
        r == names_view(v@).contains(name@),
{
    let mut i: usize = 0;
    while i < v.len()
        invariant
            i <= v.len(),
            forall|j: int| 0 <= j < i ==> v@[j]@ != name@,
        decreases v.len() - i,
    {
        if v[i] == *name {
            assert(names_view(v@)[i as int] == name@);
            return true;
        }
        i += 1;
    }
    assert(!names_view(v@).contains(name@));
    false
}

impl Onto {
    /// Adds the ancestors of `type_id` to `acc`, each unless already there.
    pub fn get_supers(&self, type_id: &String, acc: &mut Vec<String>)
        ensures
            names_view(final(acc)@) == add_all(names_view(old(acc)@), supers_of(*self, type_id@)),
    {
        let ghost start = names_view(acc@);
        match get_bound(&self.supers, type_id) {
            Some(items) => {
                let ghost model = names_view(items@);
                let mut i: usize = 0;
                while i < items.len()
                    invariant
                        i <= items.len(),
                        model == names_view(items@),
                        names_view(acc@) == add_all(start, model.subrange(0, i as int)),
                    decreases items.len() - i,
                {
                    let ghost sub = model.subrange(0, i as int + 1);
                    assert(sub.drop_last() =~= model.subrange(0, i as int));
                    if !contains_name(acc, &items[i]) {
                        let name = items[i].clone();
                        proof {
                            lemma_names_push(acc@, name);
                        }
                        acc.push(name);
                    }
                    i += 1;
                }
                assert(model.subrange(0, items.len() as int) =~= model);
            },
            None => {
                assert(add_all(start, Seq::empty()) == start);
            },
        }
    }
}

/// Session variables: entities bound to script-local keys, and string
/// attributes.
pub struct CallbackSharedData {
    pub g_key2indv: Vec<(String, Entity)>,
    pub g_key2attr: Vec<(String, String)>,
}

/// The ids of the parent document and of the parent script named by an
/// event id `<document>+<script>[+...][;...]`; both empty where it names none.
pub open spec fn parent_ids(event_id: Seq<char>) -> (Seq<char>, Seq<char>) {
    let first = split_once_spec(event_id, ';').0;
    match split_once_spec(first, '+').1 {
        Some(rest) => (split_once_spec(first, '+').0, split_once_spec(rest, '+').0),
        None => (Seq::empty(), Seq::empty()),
    }
}

impl Default for CallbackSharedData {
    fn default() -> (r: CallbackSharedData)
        ensures
            r.g_key2indv@.len() == 0,
            r.g_key2attr@.len() == 0,
    {
        CallbackSharedData { g_key2indv: Vec::new(), g_key2attr: Vec::new() }
    }
}

impl CallbackSharedData {
    pub open spec fn attrs(&self) -> Seq<(Seq<char>, Seq<char>)> {
        pairs_view(self.g_key2attr@)
    }

    pub open spec fn indvs(&self) -> Seq<(Seq<char>, EntityModel)> {
        pairs_view(self.g_key2indv@)
    }

    /// Sets the attribute `key` to `value`.
    pub fn set_attr(&mut self, key: &str, value: String)
        ensures
            forall|m: Seq<char>|
                #[trigger] lookup(final(self).attrs(), m) == if m == key@ {
                    Some(value@)
                } else {
                    lookup(old(self).attrs(), m)
                },
            final(self).g_key2indv == old(self).g_key2indv,
    {
        bind(&mut self.g_key2attr, key.to_owned(), value);
    }

    /// The attribute `key`, if set.
    pub fn get_attr(&self, key: &String) -> (r: Option<&String>)
        ensures
            match r {
                Some(v) => lookup(self.attrs(), key@) == Some(v@),
                None => lookup(self.attrs(), key@) is None,
            },
    {
        get_bound(&self.g_key2attr, key)
    }

    /// Binds the script-local key `key` to `indv`.
    pub fn set_indv(&mut self, key: &str, indv: Entity)
        ensures
            forall|m: Seq<char>|
                #[trigger] lookup(final(self).indvs(), m) == if m == key@ {
                    Some(indv@)
                } else {
                    lookup(old(self).indvs(), m)
                },
            final(self).g_key2attr == old(self).g_key2attr,
    {
        bind(&mut self.g_key2indv, key.to_owned(), indv);
    }

    /// The entity bound to `key`, if any.
    pub fn get_indv(&self, key: &String) -> (r: Option<&Entity>)
        ensures
            match r {
                Some(v) => lookup(self.indvs(), key@) == Some(v@),
                None => lookup(self.indvs(), key@) is None,
            },
    {
        get_bound(&self.g_key2indv, key)
    }

    /// Sets `$parent_document_id` and `$parent_script_id` from an event id.
    pub fn set_g_parent_script_id_etc(&mut self, event_id: &str)
        ensures
            lookup(final(self).attrs(), "$parent_document_id"@) == Some(parent_ids(event_id@).0),
            lookup(final(self).attrs(), "$parent_script_id"@) == Some(parent_ids(event_id@).1),
            forall|m: Seq<char>|
                m != "$parent_document_id"@ && m != "$parent_script_id"@ ==> #[trigger] lookup(
                    final(self).attrs(),
                    m,
                ) == lookup(old(self).attrs(), m),
            final(self).g_key2indv == old(self).g_key2indv,
    {
        let (first, _) = split_once_at(event_id, ';');
        let (doc, rest) = split_once_at(first.as_str(), '+');
        let (doc_id, script_id) = match rest {
            Some(rest) => {
                let (script, _) = split_once_at(rest.as_str(), '+');
                (doc, script)
            },
            None => (String::new(), String::new()),
        };
        proof {
            reveal_strlit("$parent_script_id");
            reveal_strlit("$parent_document_id");
            assert("$parent_script_id"@.len() != "$parent_document_id"@.len());
        }
        self.set_attr("$parent_script_id", script_id);
        self.set_attr("$parent_document_id", doc_id);
    }

    /// Sets `$super_classes` to the list of the ancestors of `indv_types`.
    pub fn set_g_super_classes(&mut self, indv_types: &[String], onto: &Onto)
        ensures
            lookup(final(self).attrs(), "$super_classes"@) == Some(
                rendered(ancestors(*onto, names_view(indv_types@))),
            ),
            forall|m: Seq<char>|
                m != "$super_classes"@ ==> #[trigger] lookup(final(self).attrs(), m) == lookup(
                    old(self).attrs(),
                    m,
                ),
            final(self).g_key2indv == old(self).g_key2indv,
    {
        let ghost types = names_view(indv_types@);
        let mut super_classes: Vec<String> = Vec::new();
        let mut i: usize = 0;
        while i < indv_types.len()
            invariant
                i <= indv_types.len(),
                types == names_view(indv_types@),
                names_view(super_classes@) == ancestors(*onto, types.subrange(0, i as int)),
            decreases indv_types.len() - i,
        {
            let ghost sub = types.subrange(0, i as int + 1);
            assert(sub.drop_last() =~= types.subrange(0, i as int));
            onto.get_supers(&indv_types[i], &mut super_classes);
            i += 1;
        }
        assert(types.subrange(0, indv_types.len() as int) =~= types);
        let text = render_list(&super_classes);
        self.set_attr("$super_classes", text);
    }
}

/// Once a put has been queued, the buffered version of its id is the
/// entity that was put.
pub proof fn put_then_read_sees_buffer(
    q0: Seq<ItemModel>,
    e: EntityModel,
    ticket: Seq<char>,
    fetched: Option<FetchModel>,
    r: ResultCode,
    q1: Seq<ItemModel>,
)
    requires
        add_step(q0, IndvOp::Put, e, ticket, fetched, r, q1),
    ensures
        r == ResultCode::Success,
        buffered(q1, e.id) == Some(e),
{
    assert(q1.last().uri == e.id);
    assert(q1.drop_last() =~= q0);
}

/// A remove-from on an id that neither the queue nor the backing store
/// holds gives `NotFound` and queues nothing.
pub proof fn remove_from_missing_is_not_found(
    q0: Seq<ItemModel>,
    diff: EntityModel,
    ticket: Seq<char>,
    r: ResultCode,
    q1: Seq<ItemModel>,
)
    requires
        last_index(q0, diff.id) is None,
        add_step(q0, IndvOp::RemoveFrom, diff, ticket, Some(FetchModel::NotFound), r, q1),
    ensures
        r == ResultCode::NotFound,
        q1 == q0,
{
}

/// An add-to followed by a set-in on an id that was not buffered fetches
/// the stored version once, for the first request only. Both requests
/// queue a put, and both puts hold the stored version with the add-to
/// merged in and then the set-in.
pub proof fn add_then_set_merges_in_order(
    q0: Seq<ItemModel>,
    stored: EntityModel,
    d1: EntityModel,
    d2: EntityModel,
    t1: Seq<char>,
    t2: Seq<char>,
    f2: Option<FetchModel>,
    r1: ResultCode,
    q1: Seq<ItemModel>,
    r2: ResultCode,
    q2: Seq<ItemModel>,
)
    requires
        last_index(q0, d1.id) is None,
        d2.id == d1.id,
        add_step(q0, IndvOp::AddTo, d1, t1, Some(FetchModel::Found(stored)), r1, q1),
        add_step(q1, IndvOp::SetIn, d2, t2, f2, r2, q2),
    ensures
        fetch_needed(q0, IndvOp::AddTo, d1),
        !fetch_needed(q1, IndvOp::SetIn, d2),
        r1 == ResultCode::Success,
        r2 == ResultCode::Success,
        q2.len() == q0.len() + 2,
        q2[q0.len() as int].cmd == IndvOp::Put,
        q2[q0.len() as int + 1].cmd == IndvOp::Put,
        q2[q0.len() as int].indv == q2[q0.len() as int + 1].indv,
        buffered(q2, d1.id) == Some(q2[q0.len() as int + 1].indv),
        exists|mid: EntityModel|
            is_merge(IndvOp::AddTo, stored, d1, mid) && is_merge(
                IndvOp::SetIn,
                mid,
                d2,
                #[trigger] q2[q0.len() as int + 1].indv,
            ),
{
    let n = q0.len() as int;
    assert(q1.last().uri == d1.id);
    assert(last_index(q1, d1.id) == Some(n));
    let mid = q1[n].indv;
    assert(q2.drop_last()[n] == q2[n]);
    assert(q2.last().uri == d1.id);
    assert(last_index(q2, d1.id) == Some(n + 1));
    assert(is_merge(IndvOp::AddTo, stored, d1, mid));
}

} // verus!
