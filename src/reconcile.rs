//! Bringing a store toward the state that a snapshot describes.
use vstd::prelude::*;

use crate::envvar::{key_at, pairs_map, EnvironmentVariable};
use crate::error::EnvError;
use crate::list_codec::{decode_list, encode_list};
use crate::snapshot::{Config, ValueDetail, SNAPSHOT_VERSION};

verus! {

/// What the import does with one entry of a snapshot.
#[derive(Debug, Clone, Copy, PartialEq, Eq, Structural)]
pub enum Disposition {
    /// The variable is not defined yet: it is set.
    New,
    /// The entry asks to replace the value: it is set.
    Overwrite,
    /// The value is a list: the entry's value is added to it.
    ListMutate,
    /// The variable is defined and the entry asks for nothing: it is left.
    Ignore,
}

/// The disposition of `e` against the variables `current`.
pub open spec fn disposition(e: ValueDetail, current: Map<Seq<char>, Seq<char>>) -> Disposition {
    if !current.contains_key(e.key@) {
        Disposition::New
    } else if e.overwrite {
        Disposition::Overwrite
    } else if e.delimiter@.len() > 0 {
        Disposition::ListMutate
    } else {
        Disposition::Ignore
    }
}

/// The positions of the entries of `entries` with disposition `d`, in order.
pub open spec fn group(
    entries: Seq<ValueDetail>,
    current: Map<Seq<char>, Seq<char>>,
    d: Disposition,
) -> Seq<usize>
    decreases entries.len(),
{
    if entries.len() == 0 {
        Seq::empty()
    } else {
        let g = group(entries.drop_last(), current, d);
        if disposition(entries.last(), current) == d {
            g.push((entries.len() - 1) as usize)
        } else {
            g
        }
    }
}

/// The entries of a snapshot, by position, grouped by disposition.
pub struct Plan {
    pub new_values: Vec<usize>,
    pub overwrite_values: Vec<usize>,
    pub insert_values: Vec<usize>,
    pub ignore_values: Vec<usize>,
}

/// `p` groups `entries` by their disposition against `current`.
pub open spec fn is_plan(p: Plan, entries: Seq<ValueDetail>, current: Map<Seq<char>, Seq<char>>) -> bool {
    &&& p.new_values@ == group(entries, current, Disposition::New)
    &&& p.overwrite_values@ == group(entries, current, Disposition::Overwrite)
    &&& p.insert_values@ == group(entries, current, Disposition::ListMutate)
    &&& p.ignore_values@ == group(entries, current, Disposition::Ignore)
}

/// Every position that `p` names is one of `n` entries.
pub open spec fn plan_in_range(p: Plan, n: int) -> bool {
    &&& forall|i: int| 0 <= i < p.new_values@.len() ==> p.new_values@[i] < n
    &&& forall|i: int| 0 <= i < p.overwrite_values@.len() ==> p.overwrite_values@[i] < n
    &&& forall|i: int| 0 <= i < p.insert_values@.len() ==> p.insert_values@[i] < n
}

proof fn lemma_group_in_range(
    entries: Seq<ValueDetail>,
    current: Map<Seq<char>, Seq<char>>,
    d: Disposition,
)
    ensures
        forall|i: int|
            0 <= i < group(entries, current, d).len() ==> #[trigger] group(entries, current, d)[i]
                < entries.len(),
    decreases entries.len(),
{
    if entries.len() > 0 {
        let g = group(entries.drop_last(), current, d);
        lemma_group_in_range(entries.drop_last(), current, d);
        assert forall|i: int| 0 <= i < group(entries, current, d).len() implies #[trigger] group(
            entries,
            current,
            d,
        )[i] < entries.len() by {
            if i < g.len() {
                assert(g[i] < entries.drop_last().len());
            }
        }
    }
}

fn has_name(current: &Vec<(String, String)>, name: &String) -> (r: bool)
    ensures
        r == pairs_map(current@).contains_key(name@),
{
    let mut i: usize = 0;
    while i < current.len()
        invariant
            i <= current.len(),
            forall|j: int| 0 <= j < i ==> current@[j].0@ != name@,
        decreases current.len() - i,
    {
        if current[i].0 == *name {
            assert(key_at(current@, name@, i as int));
            return true;
        }
        i = i + 1;
    }
    proof {
        if pairs_map(current@).contains_key(name@) {
            let j = choose|j: int| key_at(current@, name@, j);
            assert(current@[j].0@ != name@);
        }
    }
    false
}

/// The disposition of `entry` against the listed variables `current`.
pub fn classify(entry: &ValueDetail, current: &Vec<(String, String)>) -> (r: Disposition)
    ensures
        r == disposition(*entry, pairs_map(current@)),
{
    if !has_name(current, &entry.key) {
        Disposition::New
    } else if entry.overwrite {
        Disposition::Overwrite
    } else if !entry.delimiter.as_str().is_empty() {
        Disposition::ListMutate
    } else {
        Disposition::Ignore
    }
}

/// Groups `entries` by their disposition against the listed variables `current`.
pub fn classify_all(entries: &Vec<ValueDetail>, current: &Vec<(String, String)>) -> (r: Plan)
    ensures
        is_plan(r, entries@, pairs_map(current@)),
        plan_in_range(r, entries@.len() as int),
{
    let ghost m = pairs_map(current@);
    let mut p = Plan {
        new_values: Vec::new(),
        overwrite_values: Vec::new(),
        insert_values: Vec::new(),
        ignore_values: Vec::new(),
    };
    let mut k: usize = 0;
    while k < entries.len()
        invariant
            m == pairs_map(current@),
            k <= entries.len(),
            is_plan(p, entries@.subrange(0, k as int), m),
        decreases entries.len() - k,
    {
        let ghost sub = entries@.subrange(0, k as int + 1);
        assert(sub.drop_last() =~= entries@.subrange(0, k as int));
        assert(sub.last() == entries@[k as int]);
        match classify(&entries[k], current) {
            Disposition::New => p.new_values.push(k),
            Disposition::Overwrite => p.overwrite_values.push(k),
            Disposition::ListMutate => p.insert_values.push(k),
            Disposition::Ignore => p.ignore_values.push(k),
        }
        k = k + 1;
    }
    proof {
        assert(entries@.subrange(0, k as int) =~= entries@);
        lemma_group_in_range(entries@, m, Disposition::New);
        lemma_group_in_range(entries@, m, Disposition::Overwrite);
        lemma_group_in_range(entries@, m, Disposition::ListMutate);
    }
    p
}

/// The variables after the entries at positions `order` are set in turn.
pub open spec fn set_all(
    state: Map<Seq<char>, Seq<char>>,
    entries: Seq<ValueDetail>,
    order: Seq<usize>,
) -> Map<Seq<char>, Seq<char>>
    decreases order.len(),
{
    if order.len() == 0 {
        state
    } else {
        let e = entries[order.last() as int];
        set_all(state, entries, order.drop_last()).insert(e.key@, e.value@)
    }
}

/// The list that adding the value of `e` to `xs` gives: at the end for a
/// negative position, else at the position, or at the end where the
/// position lies beyond it.
pub open spec fn added(xs: Seq<Seq<char>>, e: ValueDetail) -> Seq<Seq<char>> {
    if e.insert < 0 {
        xs.push(e.value@)
    } else if e.insert as int > xs.len() {
        xs.insert(xs.len() as int, e.value@)
    } else {
        xs.insert(e.insert as int, e.value@)
    }
}

/// The variables after the value of `e` is added to the list that its
/// variable holds; `NotFound` where that variable is not defined.
pub open spec fn list_step(state: Map<Seq<char>, Seq<char>>, e: ValueDetail) -> Result<
    Map<Seq<char>, Seq<char>>,
    EnvError,
> {
    if !state.contains_key(e.key@) {
        Err(EnvError::NotFound)
    } else {
        let xs = decode_list(state[e.key@], e.delimiter@);
        Ok(state.insert(e.key@, encode_list(added(xs, e), e.delimiter@)))
    }
}

/// The variables after the list entries at positions `order` are applied in
/// turn, and the failure that stopped them, if any.
pub open spec fn list_all(
    state: Map<Seq<char>, Seq<char>>,
    entries: Seq<ValueDetail>,
    order: Seq<usize>,
) -> (Map<Seq<char>, Seq<char>>, Option<EnvError>)
    decreases order.len(),
{
    if order.len() == 0 {
        (state, None)
    } else {
        let prev = list_all(state, entries, order.drop_last());
        if prev.1 is Some {
            prev
        } else {
            match list_step(prev.0, entries[order.last() as int]) {
                Ok(next) => (next, None),
                Err(e) => (prev.0, Some(e)),
            }
        }
    }
}

/// The variables after `p` is applied to `state`, and the failure that
/// stopped it, if any: new and overwritten entries first, then list entries.
pub open spec fn outcome(state: Map<Seq<char>, Seq<char>>, entries: Seq<ValueDetail>, p: Plan) -> (
    Map<Seq<char>, Seq<char>>,
    Option<EnvError>,
) {
    list_all(set_all(state, entries, p.new_values@ + p.overwrite_values@), entries, p.insert_values@)
}

proof fn lemma_list_all_stops(
    state: Map<Seq<char>, Seq<char>>,
    entries: Seq<ValueDetail>,
    order: Seq<usize>,
    k: int,
)
    requires
        0 <= k <= order.len(),
        list_all(state, entries, order.subrange(0, k)).1 is Some,
    ensures
        list_all(state, entries, order) == list_all(state, entries, order.subrange(0, k)),
    decreases order.len() - k,
{
    if k < order.len() {
        let next = order.subrange(0, k + 1);
        assert(next.drop_last() =~= order.subrange(0, k));
        if k + 1 == order.len() {
            assert(next =~= order);
        } else {
            lemma_list_all_stops(state, entries, order, k + 1);
        }
    } else {
        assert(order.subrange(0, k) =~= order);
    }
}

fn apply_list_entry<S: EnvironmentVariable>(store: &mut S, e: &ValueDetail) -> (r: Result<(), EnvError>)
    requires
        old(store).wf(),
    ensures
        final(store).wf(),
        final(store).available() == old(store).available(),
        r is Ok ==> list_step(old(store).state(), *e) == Ok::<Map<Seq<char>, Seq<char>>, EnvError>(
            final(store).state(),
        ),
        r is Err ==> final(store).state() == old(store).state(),
        old(store).available() ==> match list_step(old(store).state(), *e) {
            Ok(_) => r is Ok,
            Err(err) => r == Err::<(), EnvError>(err),
        },
{
    if e.insert < 0 {
        store.append_list(&e.key, &e.value, &e.delimiter)
    } else {
        let l = match store.get_list(&e.key, &e.delimiter) {
            Ok(l) => l,
            Err(err) => return Err(err),
        };
        let at: usize = if e.insert as usize > l.len() {
            l.len()
        } else {
            e.insert as usize
        };
        store.insert_list(&e.key, &e.value, at, &e.delimiter)
    }
}

/// Applies `plan`, made from `config`, to `store`, unless `dry_run`: sets
/// the new and overwritten entries, then adds the list entries, and stops at
/// the first failure without undoing what was applied before it.
pub fn apply_plan<S: EnvironmentVariable>(
    store: &mut S,
    config: &Config,
    plan: &Plan,
    dry_run: bool,
) -> (r: Result<(), EnvError>)
    requires
        old(store).wf(),
        plan_in_range(*plan, config.data@.len() as int),
    ensures
        final(store).wf(),
        final(store).available() == old(store).available(),
        dry_run ==> r is Ok && final(store).state() == old(store).state(),
        !dry_run && r is Ok ==> final(store).state() == outcome(old(store).state(), config.data@, *plan).0
            && outcome(old(store).state(), config.data@, *plan).1 is None,
        !dry_run && old(store).available() ==> final(store).state() == outcome(
            old(store).state(),
            config.data@,
            *plan,
        ).0 && match outcome(old(store).state(), config.data@, *plan).1 {
            None => r is Ok,
            Some(err) => r == Err::<(), EnvError>(err),
        },
{
    if dry_run {
        return Ok(());
    }
    let ghost entries = config.data@;
    let ghost s0 = store.state();
    let ghost sets = plan.new_values@ + plan.overwrite_values@;
    let mut k: usize = 0;
    while k < plan.new_values.len()
        invariant
            entries == config.data@,
            plan_in_range(*plan, entries.len() as int),
            k <= plan.new_values.len(),
            store.wf(),
            store.available() == old(store).available(),
            s0 == old(store).state(),
            !dry_run,
            store.state() == set_all(s0, entries, plan.new_values@.subrange(0, k as int)),
        decreases plan.new_values.len() - k,
    {
        let i = plan.new_values[k];
        assert(plan.new_values@.subrange(0, k as int + 1).drop_last() =~= plan.new_values@.subrange(0, k as int));
        match store.set(&config.data[i].key, &config.data[i].value) {
            Ok(_) => {},
            Err(err) => return Err(err),
        }
        k = k + 1;
    }
    assert(plan.new_values@.subrange(0, k as int) =~= sets.subrange(0, k as int));
    let n = plan.new_values.len();
    k = 0;
    while k < plan.overwrite_values.len()
        invariant
            entries == config.data@,
            sets == plan.new_values@ + plan.overwrite_values@,
            plan_in_range(*plan, entries.len() as int),
            n == plan.new_values.len(),
            k <= plan.overwrite_values.len(),
            store.wf(),
            store.available() == old(store).available(),
            s0 == old(store).state(),
            !dry_run,
            store.state() == set_all(s0, entries, sets.subrange(0, n + k)),
        decreases plan.overwrite_values.len() - k,
    {
        let i = plan.overwrite_values[k];
        assert(sets.subrange(0, n + k + 1).drop_last() =~= sets.subrange(0, n + k));
        assert(sets[n + k] == i);
        match store.set(&config.data[i].key, &config.data[i].value) {
            Ok(_) => {},
            Err(err) => return Err(err),
        }
        k = k + 1;
    }
    assert(sets.subrange(0, sets.len() as int) =~= sets);
    let ghost s1 = store.state();
    k = 0;
    while k < plan.insert_values.len()
        invariant
            entries == config.data@,
            plan_in_range(*plan, entries.len() as int),
            k <= plan.insert_values.len(),
            store.wf(),
            store.available() == old(store).available(),
            s0 == old(store).state(),
            !dry_run,
            s1 == set_all(s0, entries, sets),
            sets == plan.new_values@ + plan.overwrite_values@,
            list_all(s1, entries, plan.insert_values@.subrange(0, k as int))
                == (store.state(), Option::<EnvError>::None),
        decreases plan.insert_values.len() - k,
    {
        let i = plan.insert_values[k];
        let ghost before = store.state();
        proof {
            assert(plan.insert_values@.subrange(0, k as int + 1).drop_last() =~= plan.insert_values@.subrange(0, k as int));
        }
        match apply_list_entry(store, &config.data[i]) {
            Ok(_) => {},
            Err(err) => {
                proof {
                    if old(store).available() {
                        lemma_list_all_stops(s1, entries, plan.insert_values@, k as int + 1);
                    }
                }
                return Err(err);
            },
        }
        k = k + 1;
    }
    assert(plan.insert_values@.subrange(0, k as int) =~= plan.insert_values@);
    Ok(())
}

/// Groups the entries of `config` by their disposition against the
/// variables of `store`.
pub fn plan_import<S: EnvironmentVariable>(store: &S, config: &Config) -> (r: Result<Plan, EnvError>)
    requires
        store.wf(),
    ensures
        match r {
            Ok(p) => config.version == SNAPSHOT_VERSION && is_plan(p, config.data@, store.state())
                && plan_in_range(p, config.data@.len() as int),
            Err(e) => (e == EnvError::InvalidSnapshot && config.version != SNAPSHOT_VERSION) || (e
                == EnvError::StoreUnavailable && config.version == SNAPSHOT_VERSION
                && !store.available()),
        },
        config.version == SNAPSHOT_VERSION && store.available() ==> r is Ok,
{
    if config.version != SNAPSHOT_VERSION {
        return Err(EnvError::InvalidSnapshot);
    }
    match store.list() {
        Ok(current) => Ok(classify_all(&config.data, &current)),
        Err(e) => Err(e),
    }
}

/// Applying `p` to `state` succeeded and left the variables `after`.
pub open spec fn final_matches(
    state: Map<Seq<char>, Seq<char>>,
    entries: Seq<ValueDetail>,
    p: Plan,
    after: Map<Seq<char>, Seq<char>>,
) -> bool {
    outcome(state, entries, p) == (after, Option::<EnvError>::None)
}

/// `p` is the grouping of the entries of `config`, of the supported version,
/// against `state`; unless `dry_run`, applying it succeeded and left `after`.
pub open spec fn imported(
    state: Map<Seq<char>, Seq<char>>,
    config: Config,
    p: Plan,
    after: Map<Seq<char>, Seq<char>>,
    dry_run: bool,
) -> bool {
    &&& config.version == SNAPSHOT_VERSION
    &&& is_plan(p, config.data@, state)
    &&& !dry_run ==> final_matches(state, config.data@, p, after)
}

/// Applying the plan of `entries` against `state` stopped on `e` and left
/// the variables `after`.
pub open spec fn failed_with(
    state: Map<Seq<char>, Seq<char>>,
    entries: Seq<ValueDetail>,
    after: Map<Seq<char>, Seq<char>>,
    e: EnvError,
) -> bool {
    exists|p: Plan|
        #[trigger] is_plan(p, entries, state) && outcome(state, entries, p) == (after, Some(e))
}

/// Imports `config` into `store`: checks its version, groups its entries by
/// disposition against the variables, and, unless `dry_run`, applies them.
/// Returns the grouping.
pub fn import_snapshot<S: EnvironmentVariable>(store: &mut S, config: &Config, dry_run: bool) -> (r:
    Result<Plan, EnvError>)
    requires
        old(store).wf(),
    ensures
        final(store).wf(),
        final(store).available() == old(store).available(),
        dry_run ==> final(store).state() == old(store).state(),
        match r {
            Ok(p) => imported(old(store).state(), *config, p, final(store).state(), dry_run),
            Err(e) => (e == EnvError::InvalidSnapshot && config.version != SNAPSHOT_VERSION
                && final(store).state() == old(store).state()) || (config.version == SNAPSHOT_VERSION
                && !old(store).available()) || (!dry_run && config.version == SNAPSHOT_VERSION
                && failed_with(old(store).state(), config.data@, final(store).state(), e)),
        },
        config.version == SNAPSHOT_VERSION && old(store).available() && dry_run ==> r is Ok,
{
    let plan = match plan_import(&*store, config) {
        Ok(p) => p,
        Err(e) => return Err(e),
    };
    let ghost s0 = store.state();
    match apply_plan(store, config, &plan, dry_run) {
        Ok(_) => {
            assert(imported(s0, *config, plan, store.state(), dry_run));
            Ok(plan)
        },
        Err(e) => {
            assert(is_plan(plan, config.data@, s0));
            assert(old(store).available() ==> outcome(s0, config.data@, plan) == (store.state(), Some(e)));
            Err(e)
        },
    }
}

} // verus!
