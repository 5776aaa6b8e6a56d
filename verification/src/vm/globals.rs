use vstd::prelude::*;

verus! {

/// The global variables of a machine: name and value pairs.
pub type Globals<V> = Vec<(String, V)>;

/// The variables a table of globals defines: a later entry for a name
/// overrides an earlier one.
pub open spec fn globals_map<V>(g: Seq<(String, V)>) -> Map<Seq<char>, V>
    decreases g.len(),
{
    if g.len() == 0 {
        Map::empty()
    } else {
        globals_map(g.drop_last()).insert(g.last().0@, g.last().1)
    }
}

/// No entry after position `i` of `g` is named `name`.
pub open spec fn last_named<V>(g: Seq<(String, V)>, name: Seq<char>, i: int) -> bool {
    &&& 0 <= i < g.len()
    &&& g[i].0@ == name
    &&& forall|j: int| i < j < g.len() ==> (#[trigger] g[j]).0@ != name
}

proof fn lemma_globals_absent<V>(g: Seq<(String, V)>, name: Seq<char>)
    requires
        forall|j: int| 0 <= j < g.len() ==> (#[trigger] g[j]).0@ != name,
    ensures
        !globals_map(g).dom().contains(name),
    decreases g.len(),
{
    if g.len() > 0 {
        lemma_globals_absent(g.drop_last(), name);
    }
}

proof fn lemma_globals_found<V>(g: Seq<(String, V)>, name: Seq<char>, i: int)
    requires
        last_named(g, name, i),
    ensures
        globals_map(g).dom().contains(name),
        globals_map(g)[name] == g[i].1,
    decreases g.len(),
{
    if i < g.len() - 1 {
        lemma_globals_found(g.drop_last(), name, i);
    }
}

proof fn lemma_globals_update<V>(g: Seq<(String, V)>, i: int, v: V)
    requires
        last_named(g, g[i].0@, i),
    ensures
        globals_map(g.update(i, (g[i].0, v))) == globals_map(g).insert(g[i].0@, v),
    decreases g.len(),
{
    let n = g[i].0@;
    let u = g.update(i, (g[i].0, v));
    if i == g.len() - 1 {
        assert(u.drop_last() =~= g.drop_last());
        assert(globals_map(u) =~= globals_map(g).insert(n, v));
    } else {
        assert(u.drop_last() =~= g.drop_last().update(i, (g[i].0, v)));
        lemma_globals_update(g.drop_last(), i, v);
        assert(g.last().0@ != n);
        assert(globals_map(u) =~= globals_map(g).insert(n, v));
    }
}

/// The position of the last entry of `g` named `name`, if any.
fn find_global<V>(g: &Globals<V>, name: &str) -> (res: Option<usize>)
    ensures
        match res {
            Some(i) => last_named(g@, name@, i as int),
            None => forall|j: int| 0 <= j < g@.len() ==> (#[trigger] g@[j]).0@ != name@,
        },
{
    let mut k: usize = g.len();
    while k > 0
        invariant
            k <= g@.len(),
            forall|j: int| k <= j < g@.len() ==> (#[trigger] g@[j]).0@ != name@,
        decreases k,
    {
        if crate::text::str_eq(g[k - 1].0.as_str(), name) {
            return Some(k - 1);
        }
        k -= 1;
    }
    None
}

/// The value of the global `name`, if it is defined.
pub fn get_global<'a, V>(g: &'a Globals<V>, name: &str) -> (res: Option<&'a V>)
    ensures
        match res {
            Some(v) => globals_map(g@).dom().contains(name@) && *v == globals_map(g@)[name@],
            None => !globals_map(g@).dom().contains(name@),
        },
{
    match find_global(g, name) {
        Some(i) => {
            proof {
                lemma_globals_found(g@, name@, i as int);
            }
            Some(&g[i].1)
        },
        None => {
            proof {
                lemma_globals_absent(g@, name@);
            }
            None
        },
    }
}

/// Defines the global `name` as `v`, in place of its earlier value.
pub fn set_global<V>(g: &mut Globals<V>, name: &String, v: V)
    ensures
        globals_map(final(g)@) == globals_map(old(g)@).insert(name@, v),
{
    match find_global(g, name.as_str()) {
        Some(i) => {
            let key = g[i].0.clone();
            proof {
                lemma_globals_update(g@, i as int, v);
            }
            g.set(i, (key, v));
        },
        None => {
            let key = name.clone();
            g.push((key, v));
            proof {
                assert(g@.drop_last() =~= old(g)@);
            }
        },
    }
}

/// Reading a global gives back the value last written to it, and writing one
/// global leaves every other global as it was.
pub proof fn lemma_global_write_read<V>(before: Seq<(String, V)>, after: Seq<(String, V)>, name: Seq<char>, v: V, other: Seq<char>)
    requires
        globals_map(after) == globals_map(before).insert(name, v),
        other != name,
    ensures
        globals_map(after).dom().contains(name),
        globals_map(after)[name] == v,
        globals_map(after).dom().contains(other) == globals_map(before).dom().contains(other),
        globals_map(before).dom().contains(other) ==> globals_map(after)[other] == globals_map(before)[other],
{
}

} // verus!
