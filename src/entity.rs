use vstd::prelude::*;
use crate::api::IndvOp;
use crate::assoc::{lemma_lookup_absent, lemma_lookup_push, lemma_lookup_update, lookup};

verus! {

/// One typed value of a predicate.
pub enum Value {
    Str(String),
    Int(i64),
    Bool(bool),
    Uri(String),
}

/// Mathematical model of a `Value`.
pub enum ValueModel {
    Str(Seq<char>),
    Int(int),
    Bool(bool),
    Uri(Seq<char>),
}

impl View for Value {
    type V = ValueModel;

    open spec fn view(&self) -> ValueModel {
        match self {
            Value::Str(s) => ValueModel::Str(s@),
            Value::Int(i) => ValueModel::Int(*i as int),
            Value::Bool(b) => ValueModel::Bool(*b),
            Value::Uri(s) => ValueModel::Uri(s@),
        }
    }
}

impl Value {
    pub fn same_as(&self, other: &Value) -> (r: bool)
        ensures
            r == (self@ == other@),
    {
        match (self, other) {
            (Value::Str(a), Value::Str(b)) => a.eq(b),
            (Value::Int(a), Value::Int(b)) => *a == *b,
            (Value::Bool(a), Value::Bool(b)) => *a == *b,
            (Value::Uri(a), Value::Uri(b)) => a.eq(b),
            _ => false,
        }
    }

    pub fn duplicate(&self) -> (r: Value)
        ensures
            r@ == self@,
    {
        match self {
            Value::Str(s) => Value::Str(s.clone()),
            Value::Int(i) => Value::Int(*i),
            Value::Bool(b) => Value::Bool(*b),
            Value::Uri(s) => Value::Uri(s.clone()),
        }
    }
}

pub open spec fn values_view(v: Seq<Value>) -> Seq<ValueModel> {
    v.map_values(|x: Value| x@)
}

proof fn lemma_values_push(s: Seq<Value>, x: Value)
    ensures
        values_view(s.push(x)) == values_view(s).push(x@),
{
    assert(values_view(s.push(x)) =~= values_view(s).push(x@));
}

proof fn lemma_values_prefix(s: Seq<Value>, i: int)
    requires
        0 <= i < s.len(),
    ensures
        values_view(s.subrange(0, i + 1)) == values_view(s.subrange(0, i)).push(s[i]@),
{
    assert(s.subrange(0, i + 1) =~= s.subrange(0, i).push(s[i]));
    lemma_values_push(s.subrange(0, i), s[i]);
}

/// A predicate of an entity with its values, in order.
pub struct Predicate {
    pub name: String,
    pub values: Vec<Value>,
}

impl View for Predicate {
    type V = (Seq<char>, Seq<ValueModel>);

    open spec fn view(&self) -> (Seq<char>, Seq<ValueModel>) {
        (self.name@, values_view(self.values@))
    }
}

/// Mathematical model of an `Entity`: its id and its predicates in order.
pub struct EntityModel {
    pub id: Seq<char>,
    pub preds: Seq<(Seq<char>, Seq<ValueModel>)>,
}

/// An identified record: a mapping of predicate names to typed values.
/// Where a name occurs more than once, its last occurrence counts.
pub struct Entity {
    pub id: String,
    pub predicates: Vec<Predicate>,
}

impl View for Entity {
    type V = EntityModel;

    open spec fn view(&self) -> EntityModel {
        EntityModel { id: self.id@, preds: self.predicates@.map_values(|p: Predicate| p@) }
    }
}

/// `cur` without every value that also occurs in `gone`.
pub open spec fn remove_all(cur: Seq<ValueModel>, gone: Seq<ValueModel>) -> Seq<ValueModel>
    decreases cur.len(),
{
    if cur.len() == 0 {
        Seq::empty()
    } else if gone.contains(cur.last()) {
        remove_all(cur.drop_last(), gone)
    } else {
        remove_all(cur.drop_last(), gone).push(cur.last())
    }
}

/// The values of a predicate after an incremental operation with `vals`:
/// `AddTo` appends them, `SetIn` overwrites with them, `RemoveFrom` removes them.
pub open spec fn merge_values(
    op: IndvOp,
    cur: Option<Seq<ValueModel>>,
    vals: Seq<ValueModel>,
) -> Seq<ValueModel> {
    let prev = match cur {
        Some(v) => v,
        None => Seq::empty(),
    };
    match op {
        IndvOp::AddTo => prev + vals,
        IndvOp::RemoveFrom => remove_all(prev, vals),
        _ => vals,
    }
}

/// The values of predicate `name` once each predicate of `diff` has been
/// applied to `prev`, in order, with the incremental operation `op`.
pub open spec fn merged(
    op: IndvOp,
    prev: Seq<(Seq<char>, Seq<ValueModel>)>,
    diff: Seq<(Seq<char>, Seq<ValueModel>)>,
    name: Seq<char>,
) -> Option<Seq<ValueModel>>
    decreases diff.len(),
{
    if diff.len() == 0 {
        lookup(prev, name)
    } else {
        let inner = merged(op, prev, diff.drop_last(), name);
        if diff.last().0 == name {
            Some(merge_values(op, inner, diff.last().1))
        } else {
            inner
        }
    }
}

fn contains_value(vals: &Vec<Value>, v: &Value) -> (r: bool)
    ensures
        r == values_view(vals@).contains(v@),
{
    let mut i: usize = 0;
    while i < vals.len()
        invariant
            i <= vals.len(),
            forall|j: int| 0 <= j < i ==> vals@[j]@ != v@,
        decreases vals.len() - i,
    {
        if vals[i].same_as(v) {
            assert(values_view(vals@)[i as int] == v@);
            return true;
        }
        i += 1;
    }
    assert(!values_view(vals@).contains(v@));
    false
}

/// A copy of `vals`, value by value.
pub fn copy_values(vals: &Vec<Value>) -> (r: Vec<Value>)
    ensures
        values_view(r@) == values_view(vals@),
{
    let mut out: Vec<Value> = Vec::new();
    let mut i: usize = 0;
    while i < vals.len()
        invariant
            i <= vals.len(),
            values_view(out@) =~= values_view(vals@.subrange(0, i as int)),
        decreases vals.len() - i,
    {
        let v = vals[i].duplicate();
        proof {
            lemma_values_push(out@, v);
            lemma_values_prefix(vals@, i as int);
        }
        out.push(v);
        i += 1;
    }
    assert(vals@.subrange(0, vals.len() as int) =~= vals@);
    out
}

/// The values that result from applying `op` with `vals` to `cur`.
fn merge_vec(op: IndvOp, cur: &Vec<Value>, present: bool, vals: &Vec<Value>) -> (r: Vec<Value>)
    requires
        op.is_incremental(),
    ensures
        values_view(r@) == merge_values(
            op,
            if present { Some(values_view(cur@)) } else { None },
            values_view(vals@),
        ),
{
    let ghost prev = if present { values_view(cur@) } else { Seq::<ValueModel>::empty() };
    match op {
        IndvOp::AddTo => {
            let mut out: Vec<Value> = Vec::new();
            if present {
                out = copy_values(cur);
            }
            let ghost base = values_view(out@);
            assert(base == prev);
            let mut i: usize = 0;
            while i < vals.len()
                invariant
                    i <= vals.len(),
                    values_view(out@) =~= base + values_view(vals@.subrange(0, i as int)),
                decreases vals.len() - i,
            {
                let v = vals[i].duplicate();
                proof {
                    lemma_values_push(out@, v);
                    lemma_values_prefix(vals@, i as int);
                }
                out.push(v);
                i += 1;
            }
            assert(vals@.subrange(0, vals.len() as int) =~= vals@);
            out
        },
        IndvOp::RemoveFrom => {
            let mut out: Vec<Value> = Vec::new();
            if present {
                let mut i: usize = 0;
                while i < cur.len()
                    invariant
                        i <= cur.len(),
                        values_view(out@) == remove_all(
                            values_view(cur@.subrange(0, i as int)),
                            values_view(vals@),
                        ),
                    decreases cur.len() - i,
                {
                    let ghost before = values_view(cur@.subrange(0, i as int));
                    let ghost after = values_view(cur@.subrange(0, i as int + 1));
                    proof {
                        lemma_values_prefix(cur@, i as int);
                    }
                    assert(after.drop_last() =~= before);
                    if !contains_value(vals, &cur[i]) {
                        let v = cur[i].duplicate();
                        proof {
                            lemma_values_push(out@, v);
                        }
                        out.push(v);
                        assert(values_view(out@) =~= remove_all(before, values_view(vals@)).push(
                            cur@[i as int]@,
                        ));
                    }
                    i += 1;
                }
                assert(cur@.subrange(0, cur.len() as int) =~= cur@);
            }
            out
        },
        _ => copy_values(vals),
    }
}

/// `out` is `prev` with every predicate of `diff` applied in order by the
/// incremental operation `op`.
pub open spec fn is_merge(op: IndvOp, prev: EntityModel, diff: EntityModel, out: EntityModel) -> bool {
    &&& out.id == prev.id
    &&& forall|m: Seq<char>| #[trigger] lookup(out.preds, m) == merged(op, prev.preds, diff.preds, m)
}

proof fn lemma_preds_prefix(s: Seq<Predicate>, i: int)
    requires
        0 <= i < s.len(),
    ensures
        s.subrange(0, i + 1).map_values(|p: Predicate| p@) == s.subrange(0, i).map_values(
            |p: Predicate| p@,
        ).push(s[i]@),
{
    assert(s.subrange(0, i + 1).map_values(|p: Predicate| p@) =~= s.subrange(0, i).map_values(
        |p: Predicate| p@,
    ).push(s[i]@));
}

impl Entity {
    /// An entity with the given id and no predicates.
    pub fn new(id: &str) -> (r: Entity)
        ensures
            r@ == (EntityModel { id: id@, preds: Seq::empty() }),
    {
        let r = Entity { id: id.to_owned(), predicates: Vec::new() };
        assert(r@.preds =~= Seq::<(Seq<char>, Seq<ValueModel>)>::empty());
        r
    }

    /// A copy of this entity, predicate by predicate.
    pub fn duplicate(&self) -> (r: Entity)
        ensures
            r@ == self@,
    {
        let mut predicates: Vec<Predicate> = Vec::new();
        let mut i: usize = 0;
        while i < self.predicates.len()
            invariant
                i <= self.predicates.len(),
                predicates@.map_values(|p: Predicate| p@) =~= self.predicates@.subrange(
                    0,
                    i as int,
                ).map_values(|p: Predicate| p@),
            decreases self.predicates.len() - i,
        {
            let p = Predicate {
                name: self.predicates[i].name.clone(),
                values: copy_values(&self.predicates[i].values),
            };
            proof {
                lemma_preds_prefix(self.predicates@, i as int);
                assert(predicates@.push(p).map_values(|p: Predicate| p@) =~= predicates@.map_values(
                    |p: Predicate| p@,
                ).push(p@));
            }
            predicates.push(p);
            i += 1;
        }
        assert(self.predicates@.subrange(0, self.predicates.len() as int) =~= self.predicates@);
        Entity { id: self.id.clone(), predicates }
    }

    /// Applies every predicate of `diff`, in order, with the incremental
    /// operation `op`.
    pub fn apply_diff(&mut self, op: IndvOp, diff: &Entity)
        requires
            op.is_incremental(),
        ensures
            is_merge(op, old(self)@, diff@, final(self)@),
    {
        let ghost prev = self@;
        let mut i: usize = 0;
        while i < diff.predicates.len()
            invariant
                op.is_incremental(),
                i <= diff.predicates.len(),
                self@.id == prev.id,
                forall|m: Seq<char>|
                    #[trigger] lookup(self@.preds, m) == merged(
                        op,
                        prev.preds,
                        diff@.preds.subrange(0, i as int),
                        m,
                    ),
            decreases diff.predicates.len() - i,
        {
            let ghost before = self@.preds;
            self.apply_predicate(op, &diff.predicates[i].name, &diff.predicates[i].values);
            proof {
                let sub = diff@.preds.subrange(0, i as int + 1);
                assert(sub.drop_last() =~= diff@.preds.subrange(0, i as int));
                assert(sub.last() == diff@.preds[i as int]);
                assert forall|m: Seq<char>|
                    #[trigger] lookup(self@.preds, m) == merged(op, prev.preds, sub, m) by {
                    assert(lookup(before, m) == merged(
                        op,
                        prev.preds,
                        diff@.preds.subrange(0, i as int),
                        m,
                    ));
                }
            }
            i += 1;
        }
        assert(diff@.preds.subrange(0, diff.predicates.len() as int) =~= diff@.preds);
    }

    /// Position of the last occurrence of predicate `name`.
    fn find_predicate(&self, name: &String) -> (r: Option<usize>)
        ensures
            match r {
                Some(i) => i < self.predicates.len() && self@.preds[i as int].0 == name@
                    && forall|j: int| i < j < self@.preds.len() ==> self@.preds[j].0 != name@,
                None => forall|j: int| 0 <= j < self@.preds.len() ==> self@.preds[j].0 != name@,
            },
    {
        let mut i: usize = self.predicates.len();
        while i > 0
            invariant
                i <= self.predicates.len(),
                forall|j: int| i <= j < self@.preds.len() ==> self@.preds[j].0 != name@,
            decreases i,
        {
            if self.predicates[i - 1].name == *name {
                return Some(i - 1);
            }
            i -= 1;
        }
        None
    }

    /// The values of predicate `name`, if the entity has it.
    pub fn get_values(&self, name: &String) -> (r: Option<&Vec<Value>>)
        ensures
            match r {
                Some(v) => lookup(self@.preds, name@) == Some(values_view(v@)),
                None => lookup(self@.preds, name@) == None::<Seq<ValueModel>>,
            },
    {
        match self.find_predicate(name) {
            Some(i) => {
                proof {
                    lemma_lookup_update(self@.preds, i as int, name@, self@.preds[i as int].1, name@);
                    assert(self@.preds.update(i as int, (name@, self@.preds[i as int].1))
                        =~= self@.preds);
                }
                Some(&self.predicates[i].values)
            },
            None => {
                proof {
                    lemma_lookup_absent(self@.preds, name@);
                }
                None
            },
        }
    }

    /// Applies the incremental operation `op` with `vals` to predicate `name`.
    pub fn apply_predicate(&mut self, op: IndvOp, name: &String, vals: &Vec<Value>)
        requires
            op.is_incremental(),
        ensures
            final(self)@.id == old(self)@.id,
            forall|m: Seq<char>|
                #[trigger] lookup(final(self)@.preds, m) == if m == name@ {
                    Some(merge_values(op, lookup(old(self)@.preds, name@), values_view(vals@)))
                } else {
                    lookup(old(self)@.preds, m)
                },
    {
        let ghost old_preds = self@.preds;
        match self.find_predicate(name) {
            Some(i) => {
                proof {
                    lemma_lookup_update(old_preds, i as int, name@, old_preds[i as int].1, name@);
                    assert(old_preds.update(i as int, (name@, old_preds[i as int].1)) =~= old_preds);
                }
                let values = merge_vec(op, &self.predicates[i].values, true, vals);
                let ghost nv = values_view(values@);
                self.predicates.set(i, Predicate { name: name.clone(), values });
                assert(self@.preds =~= old_preds.update(i as int, (name@, nv)));
                assert forall|m: Seq<char>|
                    #[trigger] lookup(self@.preds, m) == if m == name@ {
                        Some(merge_values(op, lookup(old_preds, name@), values_view(vals@)))
                    } else {
                        lookup(old_preds, m)
                    } by {
                    lemma_lookup_update(old_preds, i as int, name@, nv, m);
                }
            },
            None => {
                proof {
                    lemma_lookup_absent(old_preds, name@);
                }
                let empty: Vec<Value> = Vec::new();
                let values = merge_vec(op, &empty, false, vals);
                let ghost nv = values_view(values@);
                self.predicates.push(Predicate { name: name.clone(), values });
                assert(self@.preds =~= old_preds.push((name@, nv)));
                assert forall|m: Seq<char>|
                    #[trigger] lookup(self@.preds, m) == if m == name@ {
                        Some(merge_values(op, lookup(old_preds, name@), values_view(vals@)))
                    } else {
                        lookup(old_preds, m)
                    } by {
                    lemma_lookup_push(old_preds, (name@, nv), m);
                }
            },
        }
    }
}

} // verus!
