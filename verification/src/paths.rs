//! Key paths, sources, and the meaning of a layered stack of sources.
//!
//! A key path is a sequence of segments; a source binds paths to textual
//! values.  At spec level a source denotes a map from paths to values
//! ([`source_map`]), and a stack of sources denotes the map obtained by
//! merging them left to right ([`resolved`]), where a later source wins at
//! every path it knows and moreover shadows every earlier binding at a
//! comparable path: a scalar written at `a` replaces a whole earlier mapping
//! below `a`, and a mapping written below `a` replaces an earlier scalar at
//! `a`.

use vstd::prelude::*;

verus! {

/// One binding of a source: a hierarchical key path and its textual value.
#[derive(Debug)]
pub struct Entry {
    /// The segments of the key path, outermost first.
    pub path: Vec<String>,
    /// The textual value bound at that path.
    pub value: String,
}

impl View for Entry {
    type V = (Seq<Seq<char>>, Seq<char>);

    open spec fn view(&self) -> Self::V {
        (self.path.deep_view(), self.value@)
    }
}

impl DeepView for Entry {
    type V = (Seq<Seq<char>>, Seq<char>);

    open spec fn deep_view(&self) -> Self::V {
        self@
    }
}

/// The mapping a source denotes: within one source, later entries overwrite
/// earlier ones at the same path.
pub open spec fn source_map(entries: Seq<(Seq<Seq<char>>, Seq<char>)>) -> Map<
    Seq<Seq<char>>,
    Seq<char>,
>
    decreases entries.len(),
{
    if entries.len() == 0 {
        Map::empty()
    } else {
        source_map(entries.drop_last()).insert(entries.last().0, entries.last().1)
    }
}

/// Whether `p` names `q` or an ancestor of `q`.
pub open spec fn is_prefix_of(p: Seq<Seq<char>>, q: Seq<Seq<char>>) -> bool {
    p.len() <= q.len() && p == q.take(p.len() as int)
}

/// Whether two paths lie on one line of the hierarchy: one is a prefix of
/// the other (equality included).
pub open spec fn comparable(p: Seq<Seq<char>>, q: Seq<Seq<char>>) -> bool {
    is_prefix_of(p, q) || is_prefix_of(q, p)
}

/// Whether the source denoted by `m` writes at `p`, above `p`, or below `p`,
/// and thereby hides any earlier binding at `p`.
pub open spec fn shadows(m: Map<Seq<Seq<char>>, Seq<char>>, p: Seq<Seq<char>>) -> bool {
    exists|q: Seq<Seq<char>>| #[trigger] m.dom().contains(q) && comparable(q, p)
}

/// The merge of a lower-precedence map with a higher-precedence one: the
/// upper map wins at every path it binds; a lower binding survives only if
/// no upper binding sits at a comparable path.
pub open spec fn merged(
    lo: Map<Seq<Seq<char>>, Seq<char>>,
    up: Map<Seq<Seq<char>>, Seq<char>>,
) -> Map<Seq<Seq<char>>, Seq<char>> {
    Map::new(
        |p: Seq<Seq<char>>| up.dom().contains(p) || (lo.dom().contains(p) && !shadows(up, p)),
        |p: Seq<Seq<char>>|
            if up.dom().contains(p) {
                up[p]
            } else {
                lo[p]
            },
    )
}

/// The meaning of a whole stack of sources, merged left to right: the first
/// source has the lowest precedence, the last the highest.
pub open spec fn resolved(sources: Seq<Map<Seq<Seq<char>>, Seq<char>>>) -> Map<
    Seq<Seq<char>>,
    Seq<char>,
>
    decreases sources.len(),
{
    if sources.len() == 0 {
        Map::empty()
    } else {
        merged(resolved(sources.drop_last()), sources.last())
    }
}

/// A path is in a source's map exactly when some entry of the source binds it.
pub proof fn lemma_source_map_dom(entries: Seq<(Seq<Seq<char>>, Seq<char>)>, p: Seq<Seq<char>>)
    ensures
        source_map(entries).dom().contains(p) <==> exists|i: int|
            0 <= i < entries.len() && #[trigger] entries[i].0 == p,
    decreases entries.len(),
{
    if entries.len() > 0 {
        lemma_source_map_dom(entries.drop_last(), p);
        if entries.last().0 == p {
            assert(entries[entries.len() - 1].0 == p);
        } else if source_map(entries).dom().contains(p) {
            let i = choose|i: int|
                0 <= i < entries.drop_last().len() && #[trigger] entries.drop_last()[i].0 == p;
            assert(entries[i].0 == p);
        } else if exists|i: int| 0 <= i < entries.len() && #[trigger] entries[i].0 == p {
            let i = choose|i: int| 0 <= i < entries.len() && #[trigger] entries[i].0 == p;
            assert(entries.drop_last()[i].0 == p);
        }
    }
}

/// Appending one entry to a source inserts its binding into the source's map.
pub proof fn lemma_source_map_push(
    entries: Seq<(Seq<Seq<char>>, Seq<char>)>,
    e: (Seq<Seq<char>>, Seq<char>),
)
    ensures
        source_map(entries.push(e)) == source_map(entries).insert(e.0, e.1),
{
    assert(entries.push(e).drop_last() =~= entries);
    assert(entries.push(e).last() == e);
}

/// A source shadows `p` exactly when one of its entries binds a path
/// comparable to `p`.
pub proof fn lemma_shadows_entries(entries: Seq<(Seq<Seq<char>>, Seq<char>)>, p: Seq<Seq<char>>)
    ensures
        shadows(source_map(entries), p) <==> exists|i: int|
            0 <= i < entries.len() && comparable(#[trigger] entries[i].0, p),
{
    if shadows(source_map(entries), p) {
        let q = choose|q: Seq<Seq<char>>|
            #[trigger] source_map(entries).dom().contains(q) && comparable(q, p);
        lemma_source_map_dom(entries, q);
        let i = choose|i: int| 0 <= i < entries.len() && #[trigger] entries[i].0 == q;
        assert(comparable(entries[i].0, p));
    }
    if exists|i: int| 0 <= i < entries.len() && comparable(#[trigger] entries[i].0, p) {
        let i = choose|i: int| 0 <= i < entries.len() && comparable(#[trigger] entries[i].0, p);
        lemma_source_map_dom(entries, entries[i].0);
        assert(source_map(entries).dom().contains(entries[i].0));
        assert(shadows(source_map(entries), p));
    }
}

/// Every path is comparable to itself.
pub proof fn lemma_comparable_refl(p: Seq<Seq<char>>)
    ensures
        comparable(p, p),
{
    assert(p.take(p.len() as int) =~= p);
}

/// Precedence across a stack of sources: if source `i` binds `p` and no
/// later source binds a comparable path, then the resolved configuration
/// binds `p` to source `i`'s value.  Instantiated with the last source that
/// binds a path, this says that a later overlay beats an earlier overlay
/// beats the default.
pub proof fn lemma_source_precedence(
    sources: Seq<Map<Seq<Seq<char>>, Seq<char>>>,
    i: int,
    p: Seq<Seq<char>>,
)
    requires
        0 <= i < sources.len(),
        sources[i].dom().contains(p),
        forall|j: int| i < j < sources.len() ==> !shadows(#[trigger] sources[j], p),
    ensures
        resolved(sources).dom().contains(p),
        resolved(sources)[p] == sources[i][p],
    decreases sources.len(),
{
    let n = sources.len();
    assert(resolved(sources) == merged(resolved(sources.drop_last()), sources.last()));
    if i == n - 1 {
        assert(sources.last() == sources[i]);
    } else {
        assert(!shadows(sources[n - 1], p));
        lemma_comparable_refl(p);
        if sources[n - 1].dom().contains(p) {
            assert(shadows(sources[n - 1], p));
        }
        assert(forall|j: int|
            i < j < sources.drop_last().len() ==> !shadows(#[trigger] sources.drop_last()[j], p));
        lemma_source_precedence(sources.drop_last(), i, p);
        assert(sources.last() == sources[n - 1]);
    }
}

/// A path bound by the default source and by no comparable path of any
/// later source resolves to the default's value: absent an overlay or an
/// environment override, the default value is kept.
pub proof fn lemma_default_only(sources: Seq<Map<Seq<Seq<char>>, Seq<char>>>, p: Seq<Seq<char>>)
    requires
        sources.len() >= 1,
        sources[0].dom().contains(p),
        forall|j: int| 0 < j < sources.len() ==> !shadows(#[trigger] sources[j], p),
    ensures
        resolved(sources).dom().contains(p),
        resolved(sources)[p] == sources[0][p],
{
    lemma_source_precedence(sources, 0, p);
}

/// A path bound by the last source resolves to that source's value,
/// whatever any earlier source binds: the environment layer, added last,
/// always wins.
pub proof fn lemma_environment_wins(sources: Seq<Map<Seq<Seq<char>>, Seq<char>>>, p: Seq<Seq<char>>)
    requires
        sources.len() >= 1,
        sources[sources.len() - 1].dom().contains(p),
    ensures
        resolved(sources).dom().contains(p),
        resolved(sources)[p] == sources[sources.len() - 1][p],
{
    lemma_source_precedence(sources, sources.len() - 1, p);
}

/// Merging the empty map below any map gives that map back.
pub proof fn lemma_merged_empty(m: Map<Seq<Seq<char>>, Seq<char>>)
    ensures
        merged(Map::empty(), m) == m,
{
    assert(merged(Map::empty(), m) =~= m);
}

} // verus!
