//! Executable merging of layered sources, proved against the spec-level
//! maps of `paths`.

use vstd::prelude::*;

use crate::paths::{
    comparable, is_prefix_of, lemma_merged_empty, lemma_shadows_entries, lemma_source_map_push,
    merged, resolved, shadows, source_map, Entry,
};

verus! {

/// The part of a lower-precedence map that survives under a
/// higher-precedence map: the bindings at paths the upper map does not
/// shadow.
spec fn surviving(
    lo: Map<Seq<Seq<char>>, Seq<char>>,
    up: Map<Seq<Seq<char>>, Seq<char>>,
) -> Map<Seq<Seq<char>>, Seq<char>> {
    Map::new(|p: Seq<Seq<char>>| lo.dom().contains(p) && !shadows(up, p), |p: Seq<Seq<char>>| lo[p])
}

/// An independent copy of a key path.
fn dup_segments(p: &Vec<String>) -> (r: Vec<String>)
    ensures
        r.deep_view() == p.deep_view(),
{
    let mut r: Vec<String> = Vec::new();
    let mut i: usize = 0;
    while i < p.len()
        invariant
            i <= p.len(),
            r.deep_view() == p.deep_view().take(i as int),
        decreases p.len() - i,
    {
        let ghost r0 = r.deep_view();
        r.push(p[i].clone());
        proof {
            assert(r.deep_view() =~= r0.push(p.deep_view()[i as int]));
            assert(r.deep_view() =~= p.deep_view().take(i as int + 1));
        }
        i = i + 1;
    }
    proof {
        assert(p.deep_view().take(p.len() as int) =~= p.deep_view());
    }
    r
}

impl Entry {
    /// An independent copy of this entry.
    pub fn duplicate(&self) -> (r: Entry)
        ensures
            r@ == self@,
    {
        Entry { path: dup_segments(&self.path), value: self.value.clone() }
    }
}

/// An independent copy of a whole source.
pub fn dup_source(v: &Vec<Entry>) -> (r: Vec<Entry>)
    ensures
        r.deep_view() == v.deep_view(),
{
    let mut r: Vec<Entry> = Vec::new();
    let mut i: usize = 0;
    while i < v.len()
        invariant
            i <= v.len(),
            r.deep_view() == v.deep_view().take(i as int),
        decreases v.len() - i,
    {
        let ghost r0 = r.deep_view();
        r.push(v[i].duplicate());
        proof {
            assert(r.deep_view() =~= r0.push(v.deep_view()[i as int]));
            assert(r.deep_view() =~= v.deep_view().take(i as int + 1));
        }
        i = i + 1;
    }
    proof {
        assert(v.deep_view().take(v.len() as int) =~= v.deep_view());
    }
    r
}

/// Decide whether `p` names `q` or an ancestor of `q`.
pub fn is_prefix_exec(p: &Vec<String>, q: &Vec<String>) -> (r: bool)
    ensures
        r == is_prefix_of(p.deep_view(), q.deep_view()),
{
    if p.len() > q.len() {
        return false;
    }
    let mut k: usize = 0;
    while k < p.len()
        invariant
            k <= p.len() <= q.len(),
            forall|m: int| 0 <= m < k ==> p.deep_view()[m] == q.deep_view()[m],
        decreases p.len() - k,
    {
        if !(p[k] == q[k]) {
            proof {
                assert(p.deep_view()[k as int] != q.deep_view()[k as int]);
                assert(!is_prefix_of(p.deep_view(), q.deep_view()));
            }
            return false;
        }
        k = k + 1;
    }
    proof {
        assert(p.deep_view() =~= q.deep_view().take(p.len() as int));
    }
    true
}

/// Decide whether two paths lie on one line of the hierarchy.
pub fn comparable_exec(p: &Vec<String>, q: &Vec<String>) -> (r: bool)
    ensures
        r == comparable(p.deep_view(), q.deep_view()),
{
    is_prefix_exec(p, q) || is_prefix_exec(q, p)
}

/// Decide whether the source `upper` binds a path comparable to `path`.
fn shadowed_by(upper: &Vec<Entry>, path: &Vec<String>) -> (r: bool)
    ensures
        r == shadows(source_map(upper.deep_view()), path.deep_view()),
{
    let mut j: usize = 0;
    while j < upper.len()
        invariant
            j <= upper.len(),
            forall|i: int|
                0 <= i < j ==> !comparable(#[trigger] upper.deep_view()[i].0, path.deep_view()),
        decreases upper.len() - j,
    {
        if comparable_exec(&upper[j].path, path) {
            proof {
                assert(upper.deep_view()[j as int].0 == upper[j as int].path.deep_view());
                lemma_shadows_entries(upper.deep_view(), path.deep_view());
            }
            return true;
        }
        proof {
            assert(upper.deep_view()[j as int].0 == upper[j as int].path.deep_view());
        }
        j = j + 1;
    }
    proof {
        lemma_shadows_entries(upper.deep_view(), path.deep_view());
    }
    false
}

/// Merge a lower-precedence source with a higher-precedence one.  The
/// result denotes exactly the merge of the two maps: the upper source wins
/// at every path it binds, and a lower binding survives only when the upper
/// source binds nothing at a comparable path.
pub fn merge_sources(lower: &Vec<Entry>, upper: &Vec<Entry>) -> (r: Vec<Entry>)
    ensures
        source_map(r.deep_view()) == merged(
            source_map(lower.deep_view()),
            source_map(upper.deep_view()),
        ),
{
    let ghost lo = source_map(lower.deep_view());
    let ghost up = source_map(upper.deep_view());
    let mut out: Vec<Entry> = Vec::new();
    proof {
        assert(source_map(out.deep_view()) =~= surviving(
            source_map(lower.deep_view().take(0)),
            up,
        ));
    }
    let mut i: usize = 0;
    while i < lower.len()
        invariant
            i <= lower.len(),
            up == source_map(upper.deep_view()),
            source_map(out.deep_view()) == surviving(
                source_map(lower.deep_view().take(i as int)),
                up,
            ),
        decreases lower.len() - i,
    {
        let ghost lo_i = source_map(lower.deep_view().take(i as int));
        let ghost e_dv = lower.deep_view()[i as int];
        proof {
            assert(lower.deep_view().take(i as int + 1) =~= lower.deep_view().take(
                i as int,
            ).push(e_dv));
            lemma_source_map_push(lower.deep_view().take(i as int), e_dv);
        }
        let shadowed = shadowed_by(upper, &lower[i].path);
        proof {
            assert(e_dv == lower[i as int]@);
            assert(e_dv.0 == lower[i as int].path.deep_view());
        }
        if !shadowed {
            let ghost out0 = out.deep_view();
            out.push(lower[i].duplicate());
            proof {
                assert(out.deep_view() =~= out0.push(e_dv));
                lemma_source_map_push(out0, e_dv);
                assert(source_map(out.deep_view()) =~= surviving(lo_i.insert(e_dv.0, e_dv.1), up));
            }
        } else {
            proof {
                assert(source_map(out.deep_view()) =~= surviving(lo_i.insert(e_dv.0, e_dv.1), up));
            }
        }
        i = i + 1;
    }
    proof {
        assert(lower.deep_view().take(lower.len() as int) =~= lower.deep_view());
        assert(source_map(upper.deep_view().take(0)) =~= Map::<Seq<Seq<char>>, Seq<char>>::empty());
        assert(source_map(out.deep_view()) =~= surviving(lo, up).union_prefer_right(
            source_map(upper.deep_view().take(0)),
        ));
    }
    let mut j: usize = 0;
    while j < upper.len()
        invariant
            j <= upper.len(),
            lo == source_map(lower.deep_view()),
            up == source_map(upper.deep_view()),
            source_map(out.deep_view()) == surviving(lo, up).union_prefer_right(
                source_map(upper.deep_view().take(j as int)),
            ),
        decreases upper.len() - j,
    {
        let ghost e_dv = upper.deep_view()[j as int];
        let ghost out0 = out.deep_view();
        proof {
            assert(upper.deep_view().take(j as int + 1) =~= upper.deep_view().take(
                j as int,
            ).push(e_dv));
            lemma_source_map_push(upper.deep_view().take(j as int), e_dv);
        }
        out.push(upper[j].duplicate());
        proof {
            assert(out.deep_view() =~= out0.push(e_dv));
            lemma_source_map_push(out0, e_dv);
            assert(source_map(out.deep_view()) =~= surviving(lo, up).union_prefer_right(
                source_map(upper.deep_view().take(j as int + 1)),
            ));
        }
        j = j + 1;
    }
    proof {
        assert(upper.deep_view().take(upper.len() as int) =~= upper.deep_view());
        assert(surviving(lo, up).union_prefer_right(up) =~= merged(lo, up));
    }
    out
}

/// Decide whether two key paths are equal.
pub fn paths_equal(p: &Vec<String>, q: &Vec<String>) -> (r: bool)
    ensures
        r == (p.deep_view() == q.deep_view()),
{
    if p.len() != q.len() {
        return false;
    }
    let r = is_prefix_exec(p, q);
    proof {
        assert(q.deep_view().take(p.len() as int) =~= q.deep_view());
        if !r {
            assert(p.deep_view() != q.deep_view());
        }
    }
    r
}

/// The value a source binds at a path: the value of the last entry at that
/// path, or `None` when no entry binds it.
pub fn lookup<'a>(entries: &'a Vec<Entry>, path: &Vec<String>) -> (r: Option<&'a String>)
    ensures
        match r {
            Option::Some(v) => source_map(entries.deep_view()).dom().contains(path.deep_view())
                && v@ == source_map(entries.deep_view())[path.deep_view()],
            Option::None => !source_map(entries.deep_view()).dom().contains(path.deep_view()),
        },
{
    let ghost p = path.deep_view();
    let ghost full = source_map(entries.deep_view());
    let mut i: usize = entries.len();
    proof {
        assert(entries.deep_view().take(entries.len() as int) =~= entries.deep_view());
    }
    while i > 0
        invariant
            i <= entries.len(),
            p == path.deep_view(),
            full == source_map(entries.deep_view()),
            full.dom().contains(p) == source_map(entries.deep_view().take(i as int)).dom().contains(
                p,
            ),
            full.dom().contains(p) ==> full[p] == source_map(
                entries.deep_view().take(i as int),
            )[p],
        decreases i,
    {
        let ghost tk = entries.deep_view().take(i as int);
        proof {
            assert(tk.drop_last() =~= entries.deep_view().take(i as int - 1));
            assert(tk.last() == entries.deep_view()[i as int - 1]);
            assert(entries.deep_view()[i as int - 1].0 == entries[i as int - 1].path.deep_view());
        }
        if paths_equal(&entries[i - 1].path, path) {
            proof {
                assert(source_map(tk).dom().contains(p));
                assert(source_map(tk)[p] == tk.last().1);
            }
            return Option::Some(&entries[i - 1].value);
        }
        i = i - 1;
    }
    proof {
        assert(entries.deep_view().take(0) =~= Seq::<(Seq<Seq<char>>, Seq<char>)>::empty());
    }
    Option::None
}

/// The maps denoted by a default source, overlay sources, and an
/// environment source, lowest precedence first.
pub open spec fn layer_maps(
    d: Seq<(Seq<Seq<char>>, Seq<char>)>,
    os: Seq<Seq<(Seq<Seq<char>>, Seq<char>)>>,
    e: Seq<(Seq<Seq<char>>, Seq<char>)>,
) -> Seq<Map<Seq<Seq<char>>, Seq<char>>> {
    seq![source_map(d)] + os.map_values(|s: Seq<(Seq<Seq<char>>, Seq<char>)>| source_map(s))
        + seq![source_map(e)]
}

/// With no overlay selected, resolution reduces to the default source
/// under the environment overrides alone.
pub proof fn lemma_no_overlays(
    d: Seq<(Seq<Seq<char>>, Seq<char>)>,
    e: Seq<(Seq<Seq<char>>, Seq<char>)>,
)
    ensures
        resolved(layer_maps(d, Seq::empty(), e)) == merged(source_map(d), source_map(e)),
{
    let maps = layer_maps(d, Seq::empty(), e);
    assert(maps.len() == 2);
    assert(maps[0] == source_map(d));
    assert(maps[1] == source_map(e));
    assert(maps.drop_last() =~= seq![source_map(d)]);
    assert(seq![source_map(d)].drop_last() =~= Seq::<Map<Seq<Seq<char>>, Seq<char>>>::empty());
    assert(resolved(Seq::<Map<Seq<Seq<char>>, Seq<char>>>::empty()) == Map::<
        Seq<Seq<char>>,
        Seq<char>,
    >::empty());
    assert(seq![source_map(d)].last() == source_map(d));
    assert(resolved(seq![source_map(d)]) == merged(
        Map::<Seq<Seq<char>>, Seq<char>>::empty(),
        source_map(d),
    ));
    lemma_merged_empty(source_map(d));
    assert(maps.last() == source_map(e));
    assert(resolved(maps) == merged(resolved(maps.drop_last()), maps.last()));
}

/// End to end: a path the environment source binds is bound in the
/// resolved configuration to the environment's value, whatever the default
/// and the overlays hold at any path.
pub proof fn lemma_env_override_resolved(
    d: Seq<(Seq<Seq<char>>, Seq<char>)>,
    os: Seq<Seq<(Seq<Seq<char>>, Seq<char>)>>,
    e: Seq<(Seq<Seq<char>>, Seq<char>)>,
    p: Seq<Seq<char>>,
)
    requires
        source_map(e).dom().contains(p),
    ensures
        resolved(layer_maps(d, os, e)).dom().contains(p),
        resolved(layer_maps(d, os, e))[p] == source_map(e)[p],
{
    let maps = layer_maps(d, os, e);
    assert(maps[maps.len() - 1] == source_map(e));
    crate::paths::lemma_environment_wins(maps, p);
}

/// End to end: a path the default source binds, and which no overlay and
/// no environment override touches at a comparable path, is bound in the
/// resolved configuration to the default's value.
pub proof fn lemma_default_kept_resolved(
    d: Seq<(Seq<Seq<char>>, Seq<char>)>,
    os: Seq<Seq<(Seq<Seq<char>>, Seq<char>)>>,
    e: Seq<(Seq<Seq<char>>, Seq<char>)>,
    p: Seq<Seq<char>>,
)
    requires
        source_map(d).dom().contains(p),
        forall|j: int| 0 <= j < os.len() ==> !shadows(source_map(#[trigger] os[j]), p),
        !shadows(source_map(e), p),
    ensures
        resolved(layer_maps(d, os, e)).dom().contains(p),
        resolved(layer_maps(d, os, e))[p] == source_map(d)[p],
{
    let maps = layer_maps(d, os, e);
    assert(maps[0] == source_map(d));
    assert forall|j: int| 0 < j < maps.len() implies !shadows(#[trigger] maps[j], p) by {
        if j < maps.len() - 1 {
            assert(maps[j] == source_map(os[j - 1]));
        } else {
            assert(maps[j] == source_map(e));
        }
    }
    crate::paths::lemma_default_only(maps, p);
}

/// Merge the default source, the overlay sources in order, and the
/// environment source into one resolved source: the default has the lowest
/// precedence and the environment the highest.
pub fn resolve_layers(default: &Vec<Entry>, overlays: &Vec<Vec<Entry>>, env: &Vec<Entry>) -> (r:
    Vec<Entry>)
    ensures
        source_map(r.deep_view()) == resolved(
            layer_maps(default.deep_view(), overlays.deep_view(), env.deep_view()),
        ),
{
    let ghost maps = layer_maps(default.deep_view(), overlays.deep_view(), env.deep_view());
    let mut acc = dup_source(default);
    proof {
        assert(maps.len() == overlays.deep_view().len() + 2);
        assert(maps[0] == source_map(default.deep_view()));
        assert(maps.take(1).drop_last() =~= Seq::<Map<Seq<Seq<char>>, Seq<char>>>::empty());
        assert(maps.take(1).last() == maps[0]);
        assert(resolved(Seq::<Map<Seq<Seq<char>>, Seq<char>>>::empty()) == Map::<
            Seq<Seq<char>>,
            Seq<char>,
        >::empty());
        assert(resolved(maps.take(1)) == merged(
            Map::<Seq<Seq<char>>, Seq<char>>::empty(),
            maps[0],
        ));
        lemma_merged_empty(source_map(default.deep_view()));
        assert(source_map(acc.deep_view()) == resolved(maps.take(1)));
    }
    let mut k: usize = 0;
    while k < overlays.len()
        invariant
            k <= overlays.len(),
            maps == layer_maps(default.deep_view(), overlays.deep_view(), env.deep_view()),
            maps.len() == overlays.len() + 2,
            source_map(acc.deep_view()) == resolved(maps.take(k as int + 1)),
        decreases overlays.len() - k,
    {
        acc = merge_sources(&acc, &overlays[k]);
        proof {
            assert(overlays.deep_view()[k as int] == overlays[k as int].deep_view());
            assert(maps[k as int + 1] == source_map(overlays.deep_view()[k as int]));
            assert(maps.take(k as int + 2).drop_last() =~= maps.take(k as int + 1));
            assert(maps.take(k as int + 2).last() == maps[k as int + 1]);
            assert(source_map(acc.deep_view()) == resolved(maps.take(k as int + 2)));
        }
        k = k + 1;
    }
    let r = merge_sources(&acc, env);
    proof {
        assert(maps[maps.len() - 1] == source_map(env.deep_view()));
        assert(maps.drop_last() =~= maps.take(overlays.len() as int + 1));
        assert(maps.take(maps.len() as int) =~= maps);
        assert(source_map(r.deep_view()) == resolved(maps));
    }
    r
}

} // verus!
