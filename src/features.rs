//! Activating features: the closure of a selection over `depends_on`, with
//! undefined names and cycles rejected.
use vstd::prelude::*;
use crate::manifest::{ParsedFeature, SemanticError};

verus! {

/// The names held in `v`.
pub open spec fn names_of(v: Seq<String>) -> Set<Seq<char>> {
    Set::new(|s: Seq<char>| exists|i: int| 0 <= i < v.len() && v[i]@ == s)
}

/// The `depends_on` list of a feature; an absent one is empty.
pub open spec fn depends_on_names(f: ParsedFeature) -> Seq<String> {
    match f.depends_on {
        Some(v) => v@,
        None => Seq::empty(),
    }
}

/// Some feature named `name` is defined.
pub open spec fn is_defined(fs: Seq<(String, ParsedFeature)>, name: Seq<char>) -> bool {
    exists|i: int| 0 <= i < fs.len() && fs[i].0@ == name
}

/// Among the first `count` features, one named `u` depends on `v`.
pub open spec fn edge_within(
    fs: Seq<(String, ParsedFeature)>,
    count: int,
    u: Seq<char>,
    v: Seq<char>,
) -> bool {
    exists|i: int, j: int|
        0 <= i < count && i < fs.len() && fs[i].0@ == u && 0 <= j < depends_on_names(fs[i].1).len()
            && (#[trigger] depends_on_names(fs[i].1)[j])@ == v
}

/// A feature named `u` depends on `v`.
pub open spec fn edge(fs: Seq<(String, ParsedFeature)>, u: Seq<char>, v: Seq<char>) -> bool {
    edge_within(fs, fs.len() as int, u, v)
}

/// The names at the end of a chain of exactly `k` dependencies that starts at
/// a selected name.
pub open spec fn level(fs: Seq<(String, ParsedFeature)>, selected: Seq<String>, k: nat) -> Set<
    Seq<char>,
>
    decreases k,
{
    if k == 0 {
        names_of(selected)
    } else {
        successors(fs, level(fs, selected, (k - 1) as nat))
    }
}

/// The names that some name of `names` depends on.
pub open spec fn successors(fs: Seq<(String, ParsedFeature)>, names: Set<Seq<char>>) -> Set<
    Seq<char>,
> {
    Set::new(|v: Seq<char>| exists|u: Seq<char>| names.contains(u) && edge(fs, u, v))
}

proof fn lemma_names_of_take_step(s: Seq<String>, i: int)
    requires
        0 <= i < s.len(),
    ensures
        names_of(s.take(i + 1)) == names_of(s.take(i)).insert(s[i]@),
{
    let a = s.take(i + 1);
    let b = s.take(i);
    assert forall|x: Seq<char>| #[trigger] names_of(a).contains(x) implies names_of(b).insert(
        s[i]@,
    ).contains(x) by {
        let j = choose|j: int| 0 <= j < i + 1 && a[j]@ == x;
        if j < i {
            assert(b[j]@ == x);
        }
    }
    assert forall|x: Seq<char>| #[trigger] names_of(b).insert(s[i]@).contains(x) implies names_of(
        a,
    ).contains(x) by {
        if x == s[i]@ {
            assert(a[i]@ == x);
        } else {
            let j = choose|j: int| 0 <= j < i && b[j]@ == x;
            assert(a[j]@ == x);
        }
    }
    assert(names_of(a) =~= names_of(b).insert(s[i]@));
}

proof fn lemma_edge_within_step(fs: Seq<(String, ParsedFeature)>, i: int, u: Seq<char>)
    requires
        0 <= i < fs.len(),
    ensures
        Set::new(|v: Seq<char>| edge_within(fs, i + 1, u, v)) == Set::new(
            |v: Seq<char>| edge_within(fs, i, u, v),
        ).union(
            if fs[i].0@ == u {
                names_of(depends_on_names(fs[i].1))
            } else {
                Set::empty()
            },
        ),
{
    let extra = if fs[i].0@ == u {
        names_of(depends_on_names(fs[i].1))
    } else {
        Set::empty()
    };
    let a = Set::new(|v: Seq<char>| edge_within(fs, i + 1, u, v));
    let b = Set::new(|v: Seq<char>| edge_within(fs, i, u, v));
    assert forall|v: Seq<char>| #[trigger] a.contains(v) implies b.union(extra).contains(v) by {
        let (x, y) = choose|x: int, y: int|
            0 <= x < i + 1 && x < fs.len() && fs[x].0@ == u && 0 <= y < depends_on_names(
                fs[x].1,
            ).len() && (#[trigger] depends_on_names(fs[x].1)[y])@ == v;
        if x < i {
            assert(b.contains(v));
        } else {
            assert(names_of(depends_on_names(fs[i].1)).contains(v));
        }
    }
    assert forall|v: Seq<char>| #[trigger] b.union(extra).contains(v) implies a.contains(v) by {
        if b.contains(v) {
            let (x, y) = choose|x: int, y: int|
                0 <= x < i && x < fs.len() && fs[x].0@ == u && 0 <= y < depends_on_names(
                    fs[x].1,
                ).len() && (#[trigger] depends_on_names(fs[x].1)[y])@ == v;
            assert(edge_within(fs, i + 1, u, v));
        } else {
            let y = choose|y: int|
                0 <= y < depends_on_names(fs[i].1).len() && depends_on_names(fs[i].1)[y]@ == v;
            assert(depends_on_names(fs[i].1)[y]@ == v);
            assert(edge_within(fs, i + 1, u, v));
        }
    }
    assert(a =~= b.union(extra));
}

proof fn lemma_successors_insert(
    fs: Seq<(String, ParsedFeature)>,
    names: Set<Seq<char>>,
    u: Seq<char>,
)
    ensures
        successors(fs, names.insert(u)) == successors(fs, names).union(
            Set::new(|v: Seq<char>| edge(fs, u, v)),
        ),
{
    let a = successors(fs, names.insert(u));
    let b = successors(fs, names).union(Set::new(|v: Seq<char>| edge(fs, u, v)));
    assert forall|v: Seq<char>| #[trigger] a.contains(v) implies b.contains(v) by {
        let w = choose|w: Seq<char>| names.insert(u).contains(w) && edge(fs, w, v);
        if w != u {
            assert(names.contains(w));
            assert(successors(fs, names).contains(v));
        }
    }
    assert forall|v: Seq<char>| #[trigger] b.contains(v) implies a.contains(v) by {
        if successors(fs, names).contains(v) {
            let w = choose|w: Seq<char>| names.contains(w) && edge(fs, w, v);
            assert(names.insert(u).contains(w));
        } else {
            assert(names.insert(u).contains(u));
        }
    }
    assert(a =~= b);
}

/// The names reached by chains shorter than `k`.
pub open spec fn reached(fs: Seq<(String, ParsedFeature)>, selected: Seq<String>, k: nat) -> Set<
    Seq<char>,
> {
    Set::new(|v: Seq<char>| exists|j: nat| j < k && #[trigger] level(fs, selected, j).contains(v))
}

proof fn lemma_reached_step(fs: Seq<(String, ParsedFeature)>, selected: Seq<String>, k: nat)
    ensures
        reached(fs, selected, k + 1) == reached(fs, selected, k).union(level(fs, selected, k)),
{
    assert forall|v: Seq<char>| #[trigger]
        reached(fs, selected, k + 1).contains(v) implies reached(fs, selected, k).union(
        level(fs, selected, k),
    ).contains(v) by {
        let j = choose|j: nat| j < k + 1 && #[trigger] level(fs, selected, j).contains(v);
        if j < k {
            assert(reached(fs, selected, k).contains(v));
        }
    }
    assert forall|v: Seq<char>| #[trigger]
        reached(fs, selected, k).union(level(fs, selected, k)).contains(v) implies reached(
        fs,
        selected,
        k + 1,
    ).contains(v) by {
        if reached(fs, selected, k).contains(v) {
            let j = choose|j: nat| j < k && #[trigger] level(fs, selected, j).contains(v);
            assert(j < k + 1);
        } else {
            assert(level(fs, selected, k).contains(v));
        }
    }
    assert(reached(fs, selected, k + 1) =~= reached(fs, selected, k).union(level(fs, selected, k)));
}

proof fn lemma_empty_level_stays_empty(
    fs: Seq<(String, ParsedFeature)>,
    selected: Seq<String>,
    k: nat,
    m: nat,
)
    requires
        level(fs, selected, k).is_empty(),
        k <= m,
    ensures
        level(fs, selected, m).is_empty(),
        reached(fs, selected, m) == reached(fs, selected, k),
    decreases m - k,
{
    if m > k {
        lemma_empty_level_stays_empty(fs, selected, k, (m - 1) as nat);
        let prev = level(fs, selected, (m - 1) as nat);
        assert forall|v: Seq<char>| !#[trigger] level(fs, selected, m).contains(v) by {
            if level(fs, selected, m).contains(v) {
                let u = choose|u: Seq<char>| prev.contains(u) && edge(fs, u, v);
                assert(prev.contains(u));
            }
        }
        assert(level(fs, selected, m) =~= Set::empty());
        lemma_reached_step(fs, selected, (m - 1) as nat);
        assert(reached(fs, selected, m) =~= reached(fs, selected, (m - 1) as nat));
    }
}

/// Whether `v` holds `s`.
fn contains_name(v: &Vec<String>, s: &String) -> (r: bool)
    ensures
        r == names_of(v@).contains(s@),
{
    let mut i: usize = 0;
    while i < v.len()
        invariant
            i <= v@.len(),
            forall|j: int| 0 <= j < i ==> v@[j]@ != s@,
        decreases v.len() - i,
    {
        if v[i] == *s {
            return true;
        }
        i = i + 1;
    }
    false
}

/// Adds `s` to `v` unless it is there already.
fn insert_name(v: &mut Vec<String>, s: &String)
    ensures
        names_of(final(v)@) == names_of(old(v)@).insert(s@),
{
    if !contains_name(v, s) {
        let ghost before = v@;
        v.push(s.clone());
        assert forall|x: Seq<char>| #[trigger]
            names_of(v@).contains(x) implies names_of(before).insert(s@).contains(x) by {
            let i = choose|i: int| 0 <= i < v@.len() && v@[i]@ == x;
            if i < before.len() {
                assert(before[i]@ == x);
            }
        }
        assert forall|x: Seq<char>| #[trigger]
            names_of(before).insert(s@).contains(x) implies names_of(v@).contains(x) by {
            if x == s@ {
                assert(v@[before.len() as int]@ == x);
            } else {
                let i = choose|i: int| 0 <= i < before.len() && before[i]@ == x;
                assert(v@[i]@ == x);
            }
        }
        assert(names_of(v@) =~= names_of(before).insert(s@));
    } else {
        assert(names_of(v@) =~= names_of(v@).insert(s@));
    }
}

/// Whether a feature named `name` is defined.
fn defines(fs: &Vec<(String, ParsedFeature)>, name: &String) -> (r: bool)
    ensures
        r == is_defined(fs@, name@),
{
    let mut i: usize = 0;
    while i < fs.len()
        invariant
            i <= fs@.len(),
            forall|j: int| 0 <= j < i ==> fs@[j].0@ != name@,
        decreases fs.len() - i,
    {
        if fs[i].0 == *name {
            return true;
        }
        i = i + 1;
    }
    false
}

/// Adds to `next` every name that a feature named `u` depends on.
fn add_successors(fs: &Vec<(String, ParsedFeature)>, u: &String, next: &mut Vec<String>)
    ensures
        names_of(final(next)@) == names_of(old(next)@).union(
            Set::new(|v: Seq<char>| edge(fs@, u@, v)),
        ),
{
    let ghost start = names_of(next@);
    let mut i: usize = 0;
    assert(Set::new(|v: Seq<char>| edge_within(fs@, 0, u@, v)) =~= Set::empty());
    assert(names_of(next@) =~= start.union(Set::empty()));
    while i < fs.len()
        invariant
            i <= fs@.len(),
            names_of(next@) == start.union(Set::new(|v: Seq<char>| edge_within(fs@, i as int, u@, v))),
        decreases fs.len() - i,
    {
        let ghost at_entry = names_of(next@);
        proof {
            lemma_edge_within_step(fs@, i as int, u@);
        }
        if fs[i].0 == *u {
            let deps: &Vec<String> = match &fs[i].1.depends_on {
                Some(d) => d,
                None => {
                    assert(names_of(depends_on_names(fs@[i as int].1)) =~= Set::empty());
                    assert(names_of(next@) =~= at_entry.union(Set::empty()));
                    i = i + 1;
                    continue;
                },
            };
            let mut j: usize = 0;
            assert(names_of(deps@.take(0)) =~= Set::empty());
            assert(names_of(next@) =~= at_entry.union(Set::empty()));
            while j < deps.len()
                invariant
                    i < fs@.len(),
                    deps@ == depends_on_names(fs@[i as int].1),
                    j <= deps@.len(),
                    names_of(next@) == at_entry.union(names_of(deps@.take(j as int))),
                decreases deps.len() - j,
            {
                insert_name(next, &deps[j]);
                proof {
                    lemma_names_of_take_step(deps@, j as int);
                    assert(names_of(next@) =~= at_entry.union(names_of(deps@.take(j + 1))));
                }
                j = j + 1;
            }
            assert(deps@.take(deps@.len() as int) == deps@);
            assert(names_of(next@) =~= start.union(
                Set::new(|v: Seq<char>| edge_within(fs@, i + 1, u@, v)),
            ));
        } else {
            assert(names_of(next@) =~= start.union(
                Set::new(|v: Seq<char>| edge_within(fs@, i + 1, u@, v)),
            ));
        }
        i = i + 1;
    }
}

/// `r` is the closure of `selected` over `fs`, or the right rejection.
pub open spec fn closure_result(
    fs: Seq<(String, ParsedFeature)>,
    selected: Seq<String>,
    r: Result<Vec<String>, SemanticError>,
) -> bool {
    let n = fs.len() + 1;
    let reach = reached(fs, selected, n);
    let all_defined = forall|v: Seq<char>| #[trigger] reach.contains(v) ==> is_defined(fs, v);
    match r {
        Ok(c) => all_defined && level(fs, selected, n).is_empty() && names_of(c@) == reach,
        Err(SemanticError::UndefinedFeature { name }) => reach.contains(name@) && !is_defined(
            fs,
            name@,
        ),
        Err(SemanticError::FeatureCycle) => all_defined && !level(fs, selected, n).is_empty(),
        Err(_) => false,
    }
}

proof fn lemma_mutual_levels(
    fs: Seq<(String, ParsedFeature)>,
    selected: Seq<String>,
    a: Seq<char>,
    b: Seq<char>,
    k: nat,
)
    requires
        edge(fs, a, b),
        edge(fs, b, a),
        names_of(selected).contains(a),
    ensures
        level(fs, selected, k).contains(if k % 2 == 0 {
            a
        } else {
            b
        }),
    decreases k,
{
    if k > 0 {
        lemma_mutual_levels(fs, selected, a, b, (k - 1) as nat);
        let prev = if (k - 1) as nat % 2 == 0 {
            a
        } else {
            b
        };
        let cur = if k % 2 == 0 {
            a
        } else {
            b
        };
        assert(level(fs, selected, (k - 1) as nat).contains(prev) && edge(fs, prev, cur));
    }
}

/// Two features that depend on each other, one of them selected: the closure
/// is never returned. The selection is rejected, as a cycle unless a name
/// reached is undefined.
pub proof fn lemma_mutual_dependency_rejected(
    fs: Seq<(String, ParsedFeature)>,
    selected: Seq<String>,
    a: Seq<char>,
    b: Seq<char>,
    r: Result<Vec<String>, SemanticError>,
)
    requires
        edge(fs, a, b),
        edge(fs, b, a),
        names_of(selected).contains(a),
        closure_result(fs, selected, r),
    ensures
        r is Err,
        r->Err_0 == SemanticError::FeatureCycle || r->Err_0 is UndefinedFeature,
{
    lemma_mutual_levels(fs, selected, a, b, fs.len() + 1);
}

/// The features to activate for a selection: every name reached from a
/// selected one over `depends_on`.
///
/// With `n` features defined, a chain of `n + 1` dependencies starts `n + 1`
/// times at a defined name and so repeats one: the selection reaches a cycle
/// exactly when `level(n + 1)` is not empty, and the traversal stops there.
/// An undefined name among those reached is reported first, then a cycle;
/// otherwise the result lists the reached names.
pub fn feature_closure(features: &Vec<(String, ParsedFeature)>, selected: &Vec<String>) -> (r:
    Result<Vec<String>, SemanticError>)
    ensures
        closure_result(features@, selected@, r),
{
    let ghost fs = features@;
    let ghost sel = selected@;
    let n = features.len();
    let mut frontier: Vec<String> = Vec::new();
    let mut s: usize = 0;
    while s < selected.len()
        invariant
            s <= sel.len(),
            sel == selected@,
            names_of(frontier@) == names_of(sel.take(s as int)),
        decreases selected.len() - s,
    {
        insert_name(&mut frontier, &selected[s]);
        proof {
            lemma_names_of_take_step(sel, s as int);
        }
        s = s + 1;
    }
    assert(sel.take(sel.len() as int) == sel);
    let mut closure: Vec<String> = Vec::new();
    assert(names_of(closure@) =~= reached(fs, sel, 0));
    let mut k: usize = 0;
    loop
        invariant_except_break
            names_of(frontier@) == level(fs, sel, k as nat),
            names_of(closure@) == reached(fs, sel, k as nat),
            forall|v: Seq<char>| #[trigger]
                reached(fs, sel, k as nat).contains(v) ==> is_defined(fs, v),
        invariant
            k <= n == fs.len(),
            fs == features@,
            sel == selected@,
        ensures
            names_of(frontier@) == level(fs, sel, (n + 1) as nat),
            names_of(closure@) == reached(fs, sel, (n + 1) as nat),
            forall|v: Seq<char>| #[trigger]
                reached(fs, sel, (n + 1) as nat).contains(v) ==> is_defined(fs, v),
        decreases n - k,
    {
        if frontier.len() == 0 {
            proof {
                assert(level(fs, sel, k as nat) =~= Set::empty());
                lemma_empty_level_stays_empty(fs, sel, k as nat, (n + 1) as nat);
            }
            return Ok(closure);
        }
        let ghost lk = level(fs, sel, k as nat);
        let ghost rk = reached(fs, sel, k as nat);
        let mut next: Vec<String> = Vec::new();
        let mut i: usize = 0;
        proof {
            lemma_reached_step(fs, sel, k as nat);
            assert(names_of(frontier@.take(0)) =~= Set::empty());
            assert(names_of(closure@) =~= rk.union(names_of(frontier@.take(0))));
            assert(successors(fs, names_of(frontier@.take(0))) =~= Set::empty());
            assert(names_of(next@) =~= successors(fs, names_of(frontier@.take(0))));
        }
        while i < frontier.len()
            invariant
                k <= n == fs.len(),
                fs == features@,
                i <= frontier@.len(),
                names_of(frontier@) == lk,
                sel == selected@,
                lk == level(fs, sel, k as nat),
                rk == reached(fs, sel, k as nat),
                reached(fs, sel, (k + 1) as nat) == rk.union(lk),
                names_of(closure@) == rk.union(names_of(frontier@.take(i as int))),
                names_of(next@) == successors(fs, names_of(frontier@.take(i as int))),
                forall|v: Seq<char>| #[trigger]
                    names_of(closure@).contains(v) ==> is_defined(fs, v),
            decreases frontier.len() - i,
        {
            let u = &frontier[i];
            proof {
                assert(lk.contains(u@));
                assert(reached(fs, sel, (n + 1) as nat).contains(u@)) by {
                    assert(level(fs, sel, k as nat).contains(u@));
                }
            }
            if !defines(features, u) {
                return Err(SemanticError::UndefinedFeature { name: u.clone() });
            }
            let ghost taken = frontier@.take(i as int);
            let ghost taken1 = frontier@.take(i + 1);
            proof {
                lemma_names_of_take_step(frontier@, i as int);
                lemma_successors_insert(fs, names_of(taken), u@);
            }
            insert_name(&mut closure, u);
            add_successors(features, u, &mut next);
            proof {
                assert(names_of(closure@) =~= rk.union(names_of(taken1)));
            }
            i = i + 1;
        }
        proof {
            assert(frontier@.take(frontier@.len() as int) == frontier@);
            assert(names_of(next@) =~= level(fs, sel, (k + 1) as nat));
        }
        frontier = next;
        if k == n {
            break;
        }
        k = k + 1;
    }
    if frontier.len() == 0 {
        proof {
            assert(level(fs, sel, (n + 1) as nat) =~= Set::empty());
        }
        Ok(closure)
    } else {
        proof {
            assert(names_of(frontier@).contains(frontier@[0]@));
        }
        Err(SemanticError::FeatureCycle)
    }
}

} // verus!
