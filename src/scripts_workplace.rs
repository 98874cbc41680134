use vstd::prelude::*;
use vstd::string::StringExecFns;
use crate::assoc::lookup;
use crate::session_cache::{contains_name, names_view, CallbackSharedData};

verus! {

/// Where the engine takes a script to come from.
pub struct ScriptOrigin {
    pub resource_name: String,
    pub resource_line_offset: i32,
    pub resource_column_offset: i32,
    pub resource_is_shared_cross_origin: bool,
    pub script_id: i32,
    pub source_map_url: String,
    pub resource_is_opaque: bool,
    pub is_wasm: bool,
    pub is_module: bool,
}

/// The id every loaded script is compiled under.
pub const SCRIPT_ID: i32 = 123;

/// The origin of a classic script named `resource_name`: at its start, not
/// shared across origins, opaque, with no source map.
pub fn script_origin(resource_name: &str) -> (r: ScriptOrigin)
    ensures
        r.resource_name@ == resource_name@,
        r.resource_line_offset == 0,
        r.resource_column_offset == 0,
        !r.resource_is_shared_cross_origin,
        r.script_id == SCRIPT_ID,
        r.source_map_url@.len() == 0,
        r.resource_is_opaque,
        !r.is_wasm,
        !r.is_module,
{
    ScriptOrigin {
        resource_name: resource_name.to_owned(),
        resource_line_offset: 0,
        resource_column_offset: 0,
        resource_is_shared_cross_origin: false,
        script_id: SCRIPT_ID,
        source_map_url: String::new(),
        resource_is_opaque: true,
        is_wasm: false,
        is_module: false,
    }
}

/// A script: its id, its source, the engine's compiled form once compiled,
/// the ids of the scripts it depends on, and a context of the caller's.
pub struct ScriptInfo<S, T> {
    pub id: String,
    pub str_script: String,
    pub compiled_script: Option<S>,
    pub dependency: Vec<String>,
    pub context: T,
}

impl<S, T: Default> ScriptInfo<S, T> {
    /// A script with the given id and source, not compiled, with no
    /// dependencies.
    pub fn new_with_src(id: &str, src: &str) -> (r: Self)
        ensures
            r.id@ == id@,
            r.str_script@ == src@,
            r.compiled_script is None,
            r.dependency@.len() == 0,
    {
        ScriptInfo {
            id: id.to_owned(),
            str_script: src.to_owned(),
            compiled_script: None,
            dependency: Vec::new(),
            context: T::default(),
        }
    }

    /// Records what the engine made of the source, compiled under the
    /// origin that `script_origin` gives: the compiled script, or nothing
    /// where it did not compile. Returns whether it compiled.
    pub fn compile_script(&mut self, compiled: Option<S>) -> (r: bool)
        ensures
            final(self).compiled_script == compiled,
            final(self).id == old(self).id,
            final(self).str_script == old(self).str_script,
            final(self).dependency == old(self).dependency,
            r == compiled is Some,
    {
        let r = compiled.is_some();
        self.compiled_script = compiled;
        r
    }
}

/// Script `i` declares a dependency on script `j`.
pub open spec fn depends<S, T>(s: Seq<ScriptInfo<S, T>>, i: int, j: int) -> bool {
    names_view(s[i].dependency@).contains(s[j].id@)
}

/// `order` runs every script of `s` once, each after all it depends on.
pub open spec fn is_run_order<S, T>(s: Seq<ScriptInfo<S, T>>, order: Seq<usize>) -> bool {
    &&& order.len() == s.len()
    &&& order.no_duplicates()
    &&& forall|p: int| 0 <= p < order.len() ==> (#[trigger] order[p]) < s.len()
    &&& forall|p: int, q: int|
        0 <= p < q < order.len() ==> !depends(s, #[trigger] order[p] as int, #[trigger] order[q] as int)
}

/// Every script of `rest`, a non-empty set of scripts of `s`, depends on
/// another of `rest`: no order can run them.
pub open spec fn is_blocked<S, T>(s: Seq<ScriptInfo<S, T>>, rest: Seq<usize>) -> bool {
    &&& rest.len() > 0
    &&& forall|p: int| 0 <= p < rest.len() ==> (#[trigger] rest[p]) < s.len()
    &&& forall|p: int|
        0 <= p < rest.len() ==> exists|q: int|
            0 <= q < rest.len() && depends(s, #[trigger] rest[p] as int, rest[q] as int)
}

/// Whether every script that `i` depends on is placed.
fn ready<S, T>(scripts: &Vec<ScriptInfo<S, T>>, placed: &Vec<bool>, i: usize) -> (r: bool)
    requires
        i < scripts.len(),
        placed.len() == scripts.len(),
    ensures
        r == forall|j: int| 0 <= j < scripts.len() && depends(scripts@, i as int, j) ==> placed@[j],
{
    let mut j: usize = 0;
    while j < scripts.len()
        invariant
            j <= scripts.len(),
            placed.len() == scripts.len(),
            i < scripts.len(),
            forall|k: int| 0 <= k < j && depends(scripts@, i as int, k) ==> placed@[k],
        decreases scripts.len() - j,
    {
        if !placed[j] && contains_name(&scripts[i].dependency, &scripts[j].id) {
            return false;
        }
        j += 1;
    }
    true
}

/// Script `k` depends on a script that is not placed.
spec fn waits<S, T>(s: Seq<ScriptInfo<S, T>>, placed: Seq<bool>, k: int) -> bool {
    exists|j: int| 0 <= j < s.len() && depends(s, k, j) && !placed[j]
}

/// A script that is not placed and whose dependencies all are, if any.
fn find_ready<S, T>(scripts: &Vec<ScriptInfo<S, T>>, placed: &Vec<bool>) -> (r: Option<usize>)
    requires
        placed.len() == scripts.len(),
    ensures
        match r {
            Some(i) => i < scripts.len() && !placed@[i as int] && forall|j: int|
                0 <= j < scripts.len() && depends(scripts@, i as int, j) ==> placed@[j],
            None => forall|k: int|
                0 <= k < scripts.len() && !placed@[k] ==> #[trigger] waits(scripts@, placed@, k),
        },
{
    let mut i: usize = 0;
    while i < scripts.len()
        invariant
            i <= scripts.len(),
            placed.len() == scripts.len(),
            forall|k: int| 0 <= k < i && !placed@[k] ==> #[trigger] waits(scripts@, placed@, k),
        decreases scripts.len() - i,
    {
        if !placed[i] && ready(scripts, &placed, i) {
            return Some(i);
        }
        proof {
            if !placed@[i as int] {
                let j = choose|j: int|
                    0 <= j < scripts.len() && depends(scripts@, i as int, j) && !placed@[j];
                assert(waits(scripts@, placed@, i as int));
            }
        }
        i += 1;
    }
    None
}

/// The scripts not placed, where each of them waits for another of them.
fn collect_blocked<S, T>(scripts: &Vec<ScriptInfo<S, T>>, placed: &Vec<bool>) -> (r: Vec<usize>)
    requires
        placed.len() == scripts.len(),
        exists|u: int| 0 <= u < scripts.len() && !placed@[u],
        forall|k: int| 0 <= k < scripts.len() && !placed@[k] ==> #[trigger] waits(scripts@, placed@, k),
    ensures
        is_blocked(scripts@, r@),
{
    let n = scripts.len();
    let mut rest: Vec<usize> = Vec::new();
    let mut k: usize = 0;
    while k < n
        invariant
            k <= n,
            n == scripts.len(),
            placed.len() == n,
            forall|p: int| 0 <= p < rest.len() ==> (#[trigger] rest@[p]) < n && !placed@[rest@[p] as int],
            forall|j: int| 0 <= j < k && !placed@[j] ==> rest@.contains(j as usize),
        decreases n - k,
    {
        let ghost old_rest = rest@;
        if !placed[k] {
            rest.push(k);
        }
        proof {
            assert forall|j: int| 0 <= j < k + 1 && !placed@[j] implies rest@.contains(j as usize) by {
                if j == k as int {
                    assert(rest@[rest.len() - 1] == k);
                } else {
                    assert(old_rest.contains(j as usize));
                    let p = choose|p: int| 0 <= p < old_rest.len() && old_rest[p] == j as usize;
                    assert(rest@[p] == j as usize);
                }
            }
        }
        k += 1;
    }
    proof {
        let u = choose|u: int| 0 <= u < n && !placed@[u];
        assert(rest@.contains(u as usize));
        assert forall|p: int| 0 <= p < rest.len() implies exists|q: int|
            0 <= q < rest.len() && depends(scripts@, #[trigger] rest@[p] as int, rest@[q] as int) by {
            let k2 = rest@[p] as int;
            assert(waits(scripts@, placed@, k2));
            let j = choose|j: int| 0 <= j < n && depends(scripts@, k2, j) && !placed@[j];
            assert(rest@.contains(j as usize));
            let q = choose|q: int| 0 <= q < rest.len() && rest@[q] == j as usize;
            assert(depends(scripts@, rest@[p] as int, rest@[q] as int));
        }
    }
    rest
}

/// Orders `scripts` so that each runs after all it depends on; where no
/// such order exists, gives a set of scripts that block one another.
#[verifier::rlimit(40)]
pub fn order_scripts<S, T>(scripts: &Vec<ScriptInfo<S, T>>) -> (r: Result<Vec<usize>, Vec<usize>>)
    ensures
        match r {
            Ok(order) => is_run_order(scripts@, order@),
            Err(rest) => is_blocked(scripts@, rest@),
        },
{
    let n = scripts.len();
    let mut placed: Vec<bool> = Vec::new();
    let mut k: usize = 0;
    while k < n
        invariant
            k <= n,
            n == scripts.len(),
            placed.len() == k,
            forall|j: int| 0 <= j < k ==> !placed@[j],
        decreases n - k,
    {
        placed.push(false);
        k += 1;
    }
    let mut order: Vec<usize> = Vec::new();
    assert(order@.no_duplicates());
    while order.len() < n
        invariant
            n == scripts.len(),
            placed.len() == n,
            order.len() <= n,
            order@.no_duplicates(),
            forall|p: int| 0 <= p < order.len() ==> (#[trigger] order@[p]) < n,
            forall|j: int| 0 <= j < n ==> (placed@[j] <==> order@.contains(j as usize)),
            forall|p: int, j: int|
                0 <= p < order.len() && 0 <= j < n && #[trigger] depends(scripts@, order@[p] as int, j)
                    ==> placed@[j],
            forall|p: int, q: int|
                0 <= p < q < order.len() ==> !depends(
                    scripts@,
                    #[trigger] order@[p] as int,
                    #[trigger] order@[q] as int,
                ),
        decreases n - order.len(),
    {
        match find_ready(scripts, &placed) {
            None => {
                proof {
                    lemma_some_unplaced(placed@, order@, n);
                }
                return Err(collect_blocked(scripts, &placed));
            },
            Some(i) => {
                let ghost old_order = order@;
                let ghost old_placed = placed@;
                placed.set(i, true);
                order.push(i);
                proof {
                    lemma_place(scripts@, old_placed, old_order, placed@, order@, i, n);
                }
            },
        }
    }
    Ok(order)
}

proof fn lemma_place<S, T>(
    s: Seq<ScriptInfo<S, T>>,
    old_placed: Seq<bool>,
    old_order: Seq<usize>,
    placed: Seq<bool>,
    order: Seq<usize>,
    i: usize,
    n: usize,
)
    requires
        n == s.len(),
        old_placed.len() == n,
        i < n,
        !old_placed[i as int],
        forall|j: int| 0 <= j < n && depends(s, i as int, j) ==> old_placed[j],
        placed == old_placed.update(i as int, true),
        order == old_order.push(i),
        old_order.no_duplicates(),
        forall|p: int| 0 <= p < old_order.len() ==> (#[trigger] old_order[p]) < n,
        forall|j: int| 0 <= j < n ==> (old_placed[j] <==> old_order.contains(j as usize)),
        forall|p: int, j: int|
            0 <= p < old_order.len() && 0 <= j < n && #[trigger] depends(s, old_order[p] as int, j)
                ==> old_placed[j],
        forall|p: int, q: int|
            0 <= p < q < old_order.len() ==> !depends(
                s,
                #[trigger] old_order[p] as int,
                #[trigger] old_order[q] as int,
            ),
    ensures
        order.no_duplicates(),
        forall|p: int| 0 <= p < order.len() ==> (#[trigger] order[p]) < n,
        forall|j: int| 0 <= j < n ==> (placed[j] <==> order.contains(j as usize)),
        forall|p: int, j: int|
            0 <= p < order.len() && 0 <= j < n && #[trigger] depends(s, order[p] as int, j) ==> placed[j],
        forall|p: int, q: int|
            0 <= p < q < order.len() ==> !depends(s, #[trigger] order[p] as int, #[trigger] order[q] as int),
{
    assert(!old_order.contains(i));
    assert forall|a: int, b: int| 0 <= a < b < order.len() implies order[a] != order[b] by {
        if b == order.len() - 1 {
            assert(old_order[a] == order[a]);
        }
    }
    assert forall|j: int| 0 <= j < n implies (placed[j] <==> order.contains(j as usize)) by {
        if j == i as int {
            assert(order[order.len() - 1] == i);
        } else {
            if old_order.contains(j as usize) {
                let p = choose|p: int| 0 <= p < old_order.len() && old_order[p] == j as usize;
                assert(order[p] == j as usize);
            }
            if order.contains(j as usize) {
                let p = choose|p: int| 0 <= p < order.len() && order[p] == j as usize;
                assert(p < old_order.len());
                assert(old_order[p] == j as usize);
            }
        }
    }
    assert forall|p: int, q: int|
        0 <= p < q < order.len() implies !depends(s, #[trigger] order[p] as int, #[trigger] order[q] as int) by {
        assert(old_order[p] == order[p]);
        if q == order.len() - 1 {
            if depends(s, order[p] as int, i as int) {
                assert(old_placed[i as int]);
            }
        } else {
            assert(old_order[q] == order[q]);
        }
    }
    assert forall|p: int, j: int|
        0 <= p < order.len() && 0 <= j < n && #[trigger] depends(s, order[p] as int, j) implies placed[j] by {
        if p < old_order.len() {
            assert(old_order[p] == order[p]);
        }
    }
}

proof fn lemma_some_unplaced(placed: Seq<bool>, order: Seq<usize>, n: usize)
    requires
        placed.len() == n,
        order.len() < n,
        order.no_duplicates(),
        forall|p: int| 0 <= p < order.len() ==> (#[trigger] order[p]) < n,
        forall|j: int| 0 <= j < n ==> (placed[j] <==> order.contains(j as usize)),
    ensures
        exists|u: int| 0 <= u < n && !placed[u],
{
    let s = order.to_set();
    let full = Set::new(|u: usize| u < n);
    if forall|u: usize| u < n ==> placed[u as int] {
        assert forall|u: usize| full.contains(u) implies s.contains(u) by {
            assert(placed[u as int]);
            assert(order.contains(u));
        }
        assert(full.subset_of(s));
        order.unique_seq_to_set();
        lemma_range_len(n);
        vstd::set_lib::lemma_len_subset(full, s);
    }
}

proof fn lemma_range_len(n: usize)
    ensures
        Set::new(|u: usize| u < n).finite(),
        Set::new(|u: usize| u < n).len() == n,
    decreases n,
{
    if n == 0 {
        assert(Set::new(|u: usize| u < n) =~= Set::<usize>::empty());
    } else {
        lemma_range_len((n - 1) as usize);
        assert(Set::new(|u: usize| u < n) =~= Set::new(|u: usize| u < (n - 1) as usize).insert(
            (n - 1) as usize,
        ));
    }
}

/// The ids of the scripts at positions `idx`, in order.
pub open spec fn ids_at<S, T>(s: Seq<ScriptInfo<S, T>>, idx: Seq<usize>) -> Seq<Seq<char>> {
    idx.map_values(|k: usize| s[k as int].id@)
}

fn ids_of<S, T>(scripts: &Vec<ScriptInfo<S, T>>, idx: &Vec<usize>) -> (r: Vec<String>)
    requires
        forall|p: int| 0 <= p < idx.len() ==> (#[trigger] idx@[p]) < scripts.len(),
    ensures
        names_view(r@) == ids_at(scripts@, idx@),
{
    let mut out: Vec<String> = Vec::new();
    let mut p: usize = 0;
    while p < idx.len()
        invariant
            p <= idx.len(),
            forall|q: int| 0 <= q < idx.len() ==> (#[trigger] idx@[q]) < scripts.len(),
            names_view(out@) =~= ids_at(scripts@, idx@.subrange(0, p as int)),
        decreases idx.len() - p,
    {
        let id = scripts[idx[p]].id.clone();
        proof {
            assert(names_view(out@.push(id)) =~= names_view(out@).push(id@));
            assert(idx@.subrange(0, p as int + 1) =~= idx@.subrange(0, p as int).push(idx@[p as int]));
        }
        out.push(id);
        p += 1;
        assert(names_view(out@) =~= ids_at(scripts@, idx@.subrange(0, p as int)));
    }
    assert(idx@.subrange(0, idx.len() as int) =~= idx@);
    out
}

/// The scripts loaded into one execution context, and the order to run them in.
pub struct ScriptsWorkPlace<S, T> {
    pub scripts: Vec<ScriptInfo<S, T>>,
    pub scripts_order: Vec<String>,
}

impl<S, T> ScriptsWorkPlace<S, T> {
    /// A workplace with no scripts.
    pub fn new() -> (r: Self)
        ensures
            r.scripts@.len() == 0,
            r.scripts_order@.len() == 0,
    {
        ScriptsWorkPlace { scripts: Vec::new(), scripts_order: Vec::new() }
    }

    /// Adds `scr_inf` and orders all scripts anew, each after every script
    /// it depends on. Where its dependencies close a cycle, the script is
    /// not added, the order stays, and the ids of scripts that block one
    /// another come back.
    pub fn add_to_order(&mut self, scr_inf: ScriptInfo<S, T>) -> (r: Result<(), Vec<String>>)
        ensures
            match r {
                Ok(()) => {
                    &&& final(self).scripts@ == old(self).scripts@.push(scr_inf)
                    &&& exists|order: Seq<usize>|
                        is_run_order(final(self).scripts@, order) && names_view(
                            final(self).scripts_order@,
                        ) == ids_at(final(self).scripts@, order)
                },
                Err(ids) => {
                    &&& final(self).scripts@ == old(self).scripts@
                    &&& final(self).scripts_order@ == old(self).scripts_order@
                    &&& exists|rest: Seq<usize>|
                        is_blocked(old(self).scripts@.push(scr_inf), rest) && names_view(ids@)
                            == ids_at(old(self).scripts@.push(scr_inf), rest)
                },
            },
    {
        let ghost old_scripts = self.scripts@;
        self.scripts.push(scr_inf);
        match order_scripts(&self.scripts) {
            Ok(order) => {
                let ids = ids_of(&self.scripts, &order);
                self.scripts_order = ids;
                assert(is_run_order(self.scripts@, order@));
                Ok(())
            },
            Err(rest) => {
                let ids = ids_of(&self.scripts, &rest);
                let ghost all = self.scripts@;
                assert(is_blocked(all, rest@));
                let _ = self.scripts.pop();
                assert(self.scripts@ =~= old_scripts);
                Err(ids)
            },
        }
    }
}

/// What a line of a location's sequence file asks to load.
pub enum ManifestEntry {
    /// The sentinel line: every discovered module directory, here.
    Modules,
    /// The scripts of this directory, in scan order.
    Scripts(String),
}

pub enum ManifestEntryModel {
    Modules,
    Scripts(Seq<char>),
}

impl View for ManifestEntry {
    type V = ManifestEntryModel;

    open spec fn view(&self) -> ManifestEntryModel {
        match self {
            ManifestEntry::Modules => ManifestEntryModel::Modules,
            ManifestEntry::Scripts(s) => ManifestEntryModel::Scripts(s@),
        }
    }
}

/// The entry a sequence-file line of the location `path` stands for.
pub open spec fn manifest_entry(path: Seq<char>, line: Seq<char>) -> ManifestEntryModel {
    if line == "$modules"@ {
        ManifestEntryModel::Modules
    } else {
        ManifestEntryModel::Scripts(path + line)
    }
}

/// Reads the lines of the sequence file of the location `path` (which ends
/// with a separator), in order.
pub fn manifest_entries(path: &str, lines: &Vec<String>) -> (r: Vec<ManifestEntry>)
    ensures
        r.len() == lines.len(),
        forall|p: int| 0 <= p < lines.len() ==> (#[trigger] r@[p])@ == manifest_entry(path@, lines@[p]@),
{
    let sentinel = String::from_str("$modules");
    let mut out: Vec<ManifestEntry> = Vec::new();
    let mut p: usize = 0;
    while p < lines.len()
        invariant
            p <= lines.len(),
            out.len() == p,
            sentinel@ == "$modules"@,
            forall|q: int| 0 <= q < p ==> (#[trigger] out@[q])@ == manifest_entry(path@, lines@[q]@),
        decreases lines.len() - p,
    {
        let e = if lines[p] == sentinel {
            ManifestEntry::Modules
        } else {
            ManifestEntry::Scripts(String::from_str(path).concat(lines[p].as_str()))
        };
        out.push(e);
        p += 1;
    }
    out
}

/// The session that scripts load into: the system ticket under `$ticket`,
/// nothing else.
pub fn session_for_ticket(sys_ticket: &str) -> (r: CallbackSharedData)
    ensures
        r.g_key2indv@.len() == 0,
        forall|m: Seq<char>|
            #[trigger] lookup(r.attrs(), m) == if m == "$ticket"@ {
                Some(sys_ticket@)
            } else {
                None
            },
{
    let mut session = CallbackSharedData::default();
    assert(session.attrs() =~= Seq::<(Seq<char>, Seq<char>)>::empty());
    session.set_attr("$ticket", sys_ticket.to_owned());
    session
}

} // verus!
