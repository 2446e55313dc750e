use std::collections::HashMap;
use vstd::prelude::*;
use vstd::std_specs::hash::{spec_hash_map_iter, spec_keys_iter};
use vstd::std_specs::iter::IteratorSpec;

use crate::descriptor::{
    bindings_view, layout_view, DescriptorInfoView, DescriptorSetBindings,
    StageDescriptorSetLayout,
};

verus! {

broadcast use {vstd::std_specs::hash::group_hash_axioms, vstd::seq_lib::group_seq_properties};

/// Two sets of bindings agree on the type and name of every binding index they share.
pub open spec fn bindings_compatible(
    a: Map<u32, DescriptorInfoView>,
    b: Map<u32, DescriptorInfoView>,
) -> bool {
    forall|k: u32|
        #[trigger] a.contains_key(k) && #[trigger] b.contains_key(k) ==> a[k].ty == b[k].ty
            && a[k].name == b[k].name
}

/// Two stage layouts agree on every binding they share.
pub open spec fn layouts_compatible(
    a: Map<u32, Map<u32, DescriptorInfoView>>,
    b: Map<u32, Map<u32, DescriptorInfoView>>,
) -> bool {
    forall|s: u32|
        #[trigger] a.contains_key(s) && #[trigger] b.contains_key(s) ==> bindings_compatible(
            a[s],
            b[s],
        )
}

/// `src` merged into `dst`: every set and binding of either, where a binding
/// that both hold keeps `dst`'s description.
pub open spec fn merge_layouts(
    dst: Map<u32, Map<u32, DescriptorInfoView>>,
    src: Map<u32, Map<u32, DescriptorInfoView>>,
) -> Map<u32, Map<u32, DescriptorInfoView>> {
    Map::new(
        |s: u32| dst.contains_key(s) || src.contains_key(s),
        |s: u32|
            if dst.contains_key(s) && src.contains_key(s) {
                src[s].union_prefer_right(dst[s])
            } else if dst.contains_key(s) {
                dst[s]
            } else {
                src[s]
            },
    )
}

/// The keys of `m`, each once, in the map's own order.
pub fn map_keys<V>(m: &HashMap<u32, V>) -> (r: Vec<u32>)
    ensures
        r@.to_set() == m@.dom(),
        r@.no_duplicates(),
        r@.len() == m@.dom().len(),
{
    let ghost ks = spec_keys_iter(m).remaining().unref();
    let mut keys: Vec<u32> = Vec::new();
    for k in it: m.keys()
        invariant
            ks == spec_keys_iter(m).remaining().unref(),
            it.seq().unref() == ks,
            keys@ == ks.take(it.index()),
    {
        keys.push(*k);
        assert(ks.take(it.index() + 1) =~= ks.take(it.index()).push(*k));
    }
    assert(keys@ =~= ks);
    proof {
        let rem = spec_keys_iter(m).remaining();
        assert(rem.no_duplicates());
        assert forall|i: int, j: int|
            0 <= i < ks.len() && 0 <= j < ks.len() && i != j implies ks[i] != ks[j] by {
            assert(rem[i] != rem[j]);
        }
    }
    keys
}

/// Whether two sets of bindings agree on every binding they share.
pub fn bindings_agree(a: &DescriptorSetBindings, b: &DescriptorSetBindings) -> (r: bool)
    ensures
        r == bindings_compatible(bindings_view(*a), bindings_view(*b)),
{
    let ghost av = bindings_view(*a);
    let ghost bv = bindings_view(*b);
    let ghost seq = spec_hash_map_iter(a).remaining();
    for entry in it: a.iter()
        invariant
            av == bindings_view(*a),
            bv == bindings_view(*b),
            seq == spec_hash_map_iter(a).remaining(),
            it.seq() == seq,
            forall|i: int|
                0 <= i < it.index() && #[trigger] bv.contains_key(*seq[i].0) ==> av[*seq[i].0].ty
                    == bv[*seq[i].0].ty && av[*seq[i].0].name == bv[*seq[i].0].name,
    {
        let (k, da) = entry;
        assert(a@.contains_key(*k) && a@[*k] == *da);
        match b.get(k) {
            Some(db) => {
                if da.ty != db.ty || da.name != db.name {
                    assert(av.contains_key(*k) && bv.contains_key(*k));
                    return false;
                }
            },
            None => {},
        }
    }
    assert forall|k: u32| #[trigger] av.contains_key(k) && #[trigger] bv.contains_key(k) implies av[k].ty
        == bv[k].ty && av[k].name == bv[k].name by {
        assert(a@.contains_key(k));
        assert(seq.contains((&k, &a@[k])));
        let i = choose|i: int| 0 <= i < seq.len() && seq[i] == (&k, &a@[k]);
        assert(bv.contains_key(*seq[i].0));
    }
    true
}

/// Whether two stage layouts agree on every binding they share.
pub fn stage_layouts_agree(a: &StageDescriptorSetLayout, b: &StageDescriptorSetLayout) -> (r: bool)
    ensures
        r == layouts_compatible(layout_view(*a), layout_view(*b)),
{
    let ghost av = layout_view(*a);
    let ghost bv = layout_view(*b);
    let ghost seq = spec_hash_map_iter(a).remaining();
    for entry in it: a.iter()
        invariant
            av == layout_view(*a),
            bv == layout_view(*b),
            seq == spec_hash_map_iter(a).remaining(),
            it.seq() == seq,
            forall|i: int|
                0 <= i < it.index() && #[trigger] bv.contains_key(*seq[i].0) ==> bindings_compatible(
                    av[*seq[i].0],
                    bv[*seq[i].0],
                ),
    {
        let (s, sa) = entry;
        assert(a@.contains_key(*s) && a@[*s] == *sa);
        match b.get(s) {
            Some(sb) => {
                if !bindings_agree(sa, sb) {
                    assert(av.contains_key(*s) && bv.contains_key(*s));
                    return false;
                }
            },
            None => {},
        }
    }
    assert forall|s: u32| #[trigger] av.contains_key(s) && #[trigger] bv.contains_key(
        s,
    ) implies bindings_compatible(av[s], bv[s]) by {
        assert(a@.contains_key(s));
        assert(seq.contains((&s, &a@[s])));
        let i = choose|i: int| 0 <= i < seq.len() && seq[i] == (&s, &a@[s]);
        assert(bv.contains_key(*seq[i].0));
    }
    true
}

/// Adds to `dst` every binding of `src` that `dst` lacks.
fn merge_bindings(src: DescriptorSetBindings, dst: &mut DescriptorSetBindings)
    ensures
        final(dst)@ == src@.union_prefer_right(old(dst)@),
{
    let keys = map_keys(&src);
    let ghost src0 = src@;
    let ghost dst0 = dst@;
    let mut src = src;
    let mut i: usize = 0;
    while i < keys.len()
        invariant
            0 <= i <= keys@.len(),
            keys@.to_set() == src0.dom(),
            keys@.no_duplicates(),
            forall|k: u32|
                #![trigger src@.contains_key(k)]
                src@.contains_key(k) <==> (src0.contains_key(k) && !keys@.subrange(
                    0,
                    i as int,
                ).contains(k)),
            forall|k: u32| #[trigger] src@.contains_key(k) ==> src@[k] == src0[k],
            dst@ == src0.restrict(keys@.subrange(0, i as int).to_set()).union_prefer_right(dst0),
        decreases keys@.len() - i,
    {
        let k = keys[i];
        assert(keys@.to_set().contains(k));
        assert(!keys@.subrange(0, i as int).contains(k)) by {
            if keys@.subrange(0, i as int).contains(k) {
                let j = choose|j: int| 0 <= j < i && keys@.subrange(0, i as int)[j] == k;
                assert(keys@[j] == keys@[i as int]);
            }
        }
        assert(src@.contains_key(k));
        let v = src.remove(&k);
        match v {
            Some(v) => {
                if !dst.contains_key(&k) {
                    dst.insert(k, v);
                }
            },
            None => {},
        }
        proof {
            let done = keys@.subrange(0, i as int);
            let next = keys@.subrange(0, i + 1);
            assert(next =~= done.push(k));
            assert(next.to_set() =~= done.to_set().insert(k));
            assert forall|j: u32| #![trigger src@.contains_key(j)] src@.contains_key(j) <==> (
            src0.contains_key(j) && !next.contains(j)) by {
                if next.contains(j) && !done.contains(j) {
                    let x = choose|x: int| 0 <= x < next.len() && next[x] == j;
                    assert(x == i);
                }
                if done.contains(j) {
                    let x = choose|x: int| 0 <= x < done.len() && done[x] == j;
                    assert(next[x] == j);
                }
            }
            assert(dst@ =~= src0.restrict(next.to_set()).union_prefer_right(dst0));
        }
        i = i + 1;
    }
    assert(keys@.subrange(0, i as int) == keys@);
    assert(src0.restrict(keys@.to_set()) =~= src0);
}

/// Merges the descriptor sets of `src` into `dst`: sets that only `src` has are
/// added whole, and a shared set gains the bindings of `src` that it lacks.
/// Where both hold a binding they must agree on its type and name.
pub fn merge_shader_stage_layout_pair(
    src: StageDescriptorSetLayout,
    dst: &mut StageDescriptorSetLayout,
)
    requires
        layouts_compatible(layout_view(src), layout_view(*old(dst))),
    ensures
        layout_view(*final(dst)) == merge_layouts(layout_view(*old(dst)), layout_view(src)),
{
    let keys = map_keys(&src);
    let ghost src0 = src@;
    let ghost sv = layout_view(src);
    let ghost dv0 = layout_view(*dst);
    let mut src = src;
    let mut i: usize = 0;
    while i < keys.len()
        invariant
            0 <= i <= keys@.len(),
            sv == layout_view_of(src0),
            keys@.to_set() == src0.dom(),
            keys@.no_duplicates(),
            forall|k: u32|
                #![trigger src@.contains_key(k)]
                src@.contains_key(k) <==> (src0.contains_key(k) && !keys@.subrange(
                    0,
                    i as int,
                ).contains(k)),
            forall|k: u32| #[trigger] src@.contains_key(k) ==> src@[k] == src0[k],
            layout_view(*dst) == merge_layouts(
                dv0,
                sv.restrict(keys@.subrange(0, i as int).to_set()),
            ),
            layouts_compatible(sv, dv0),
        decreases keys@.len() - i,
    {
        let k = keys[i];
        assert(keys@.to_set().contains(k));
        assert(!keys@.subrange(0, i as int).contains(k)) by {
            if keys@.subrange(0, i as int).contains(k) {
                let j = choose|j: int| 0 <= j < i && keys@.subrange(0, i as int)[j] == k;
                assert(keys@[j] == keys@[i as int]);
            }
        }
        assert(src@.contains_key(k));
        let ghost old_dst = dst@;
        let set = src.remove(&k);
        match set {
            Some(set) => {
                assert(set == src0[k]);
                match dst.remove(&k) {
                    Some(existing) => {
                        let mut existing = existing;
                        let ghost e0 = existing@;
                        merge_bindings(set, &mut existing);
                        proof {
                            assert(bindings_view(existing) =~= bindings_view(set).union_prefer_right(
                                bindings_view_of(e0),
                            ));
                        }
                        dst.insert(k, existing);
                    },
                    None => {
                        dst.insert(k, set);
                    },
                }
            },
            None => {},
        }
        proof {
            let done = keys@.subrange(0, i as int);
            let next = keys@.subrange(0, i + 1);
            assert(next =~= done.push(k));
            assert(next.to_set() =~= done.to_set().insert(k));
            assert forall|j: u32| #![trigger src@.contains_key(j)] src@.contains_key(j) <==> (
            src0.contains_key(j) && !next.contains(j)) by {
                if next.contains(j) && !done.contains(j) {
                    let x = choose|x: int| 0 <= x < next.len() && next[x] == j;
                    assert(x == i);
                }
                if done.contains(j) {
                    let x = choose|x: int| 0 <= x < done.len() && done[x] == j;
                    assert(next[x] == j);
                }
            }
            let prev = merge_layouts(dv0, sv.restrict(done.to_set()));
            let target = merge_layouts(dv0, sv.restrict(next.to_set()));
            assert(layout_view_of(old_dst) == prev);
            assert(!done.to_set().contains(k));
            assert(!sv.restrict(done.to_set()).contains_key(k));
            assert(prev.contains_key(k) == dv0.contains_key(k));
            assert(layout_view_of(old_dst).contains_key(k) == old_dst.contains_key(k));
            assert(dv0.contains_key(k) ==> prev[k] == dv0[k]);
            assert(old_dst.contains_key(k) ==> layout_view_of(old_dst)[k] == bindings_view(old_dst[k]));
            assert(old_dst.contains_key(k) == dv0.contains_key(k));
            assert(old_dst.contains_key(k) ==> bindings_view(old_dst[k]) == dv0[k]);
            assert(dst@.contains_key(k));
            assert(bindings_view(dst@[k]) == target[k]);
            assert forall|s: u32| s != k implies (#[trigger] dst@.contains_key(s)
                == target.contains_key(s)) && (dst@.contains_key(s) ==> bindings_view(dst@[s])
                == target[s]) by {
                assert(dst@.contains_key(s) == old_dst.contains_key(s));
                assert(old_dst.contains_key(s) ==> dst@[s] == old_dst[s]);
                assert(next.to_set().contains(s) == done.to_set().contains(s));
                assert(sv.restrict(next.to_set()).contains_key(s) == sv.restrict(done.to_set()).contains_key(s));
                assert(prev.contains_key(s) == target.contains_key(s));
                assert(prev.contains_key(s) ==> prev[s] == target[s]);
                assert(layout_view_of(old_dst).contains_key(s) == old_dst.contains_key(s));
                assert(old_dst.contains_key(s) ==> layout_view_of(old_dst)[s] == bindings_view(old_dst[s]));
            }
            assert(layout_view(*dst) =~= target);
        }
        i = i + 1;
    }
    assert(keys@.subrange(0, i as int) == keys@);
    assert(sv.restrict(keys@.to_set()) =~= sv);
}

pub open spec fn bindings_view_of(m: Map<u32, crate::descriptor::DescriptorInfo>) -> Map<
    u32,
    DescriptorInfoView,
> {
    m.map_values(|d: crate::descriptor::DescriptorInfo| d@)
}

pub open spec fn layout_view_of(m: Map<u32, DescriptorSetBindings>) -> Map<
    u32,
    Map<u32, DescriptorInfoView>,
> {
    m.map_values(|b: DescriptorSetBindings| bindings_view(b))
}


/// The model of each stage layout of `stages`.
pub open spec fn stage_views(stages: Seq<StageDescriptorSetLayout>) -> Seq<
    Map<u32, Map<u32, DescriptorInfoView>>,
> {
    stages.map_values(|l: StageDescriptorSetLayout| layout_view(l))
}

/// The stage layouts merged in order: the first one, then each later one merged into it.
pub open spec fn merge_all(ls: Seq<Map<u32, Map<u32, DescriptorInfoView>>>) -> Map<
    u32,
    Map<u32, DescriptorInfoView>,
>
    decreases ls.len(),
{
    if ls.len() == 0 {
        Map::empty()
    } else if ls.len() == 1 {
        ls[0]
    } else {
        merge_layouts(merge_all(ls.drop_last()), ls.last())
    }
}

/// Every two of the stage layouts agree on the bindings they share.
pub open spec fn pairwise_compatible(ls: Seq<Map<u32, Map<u32, DescriptorInfoView>>>) -> bool {
    forall|i: int, j: int|
        0 <= i < j < ls.len() ==> layouts_compatible(#[trigger] ls[j], #[trigger] ls[i])
}

/// Every binding of a merge of stage layouts is a binding of one of them.
pub proof fn lemma_merge_all_binding_origin(
    ls: Seq<Map<u32, Map<u32, DescriptorInfoView>>>,
    s: u32,
    b: u32,
)
    requires
        merge_all(ls).contains_key(s),
        merge_all(ls)[s].contains_key(b),
    ensures
        exists|i: int|
            0 <= i < ls.len() && (#[trigger] ls[i]).contains_key(s) && ls[i][s].contains_key(b)
                && ls[i][s][b] == merge_all(ls)[s][b],
    decreases ls.len(),
{
    if ls.len() == 1 {
        assert(ls[0].contains_key(s));
    } else if ls.len() > 1 {
        let prev = ls.drop_last();
        let m = merge_all(prev);
        if m.contains_key(s) && m[s].contains_key(b) {
            lemma_merge_all_binding_origin(prev, s, b);
            let i = choose|i: int|
                0 <= i < prev.len() && (#[trigger] prev[i]).contains_key(s) && prev[i][s].contains_key(b)
                    && prev[i][s][b] == m[s][b];
            assert(ls[i] == prev[i]);
        } else {
            assert(ls[ls.len() - 1] == ls.last());
        }
    }
}

/// Merging stage layouts keeps every set and binding of each of them, and, when
/// they agree on what they share, with its type and name.
pub proof fn lemma_merge_all_keeps_bindings(
    ls: Seq<Map<u32, Map<u32, DescriptorInfoView>>>,
    i: int,
    s: u32,
    b: u32,
)
    requires
        0 <= i < ls.len(),
        ls[i].contains_key(s),
        ls[i][s].contains_key(b),
    ensures
        merge_all(ls).contains_key(s),
        merge_all(ls)[s].contains_key(b),
        pairwise_compatible(ls) ==> merge_all(ls)[s][b].ty == ls[i][s][b].ty && merge_all(
            ls,
        )[s][b].name == ls[i][s][b].name,
    decreases ls.len(),
{
    if ls.len() > 1 {
        let prev = ls.drop_last();
        if i < ls.len() - 1 {
            assert(prev[i] == ls[i]);
            lemma_merge_all_keeps_bindings(prev, i, s, b);
            if pairwise_compatible(ls) {
                assert forall|x: int, y: int| 0 <= x < y < prev.len() implies layouts_compatible(
                    #[trigger] prev[y],
                    #[trigger] prev[x],
                ) by {
                    assert(prev[y] == ls[y] && prev[x] == ls[x]);
                }
            }
        } else {
            let m = merge_all(prev);
            if pairwise_compatible(ls) && m.contains_key(s) && m[s].contains_key(b) {
                lemma_merge_all_binding_origin(prev, s, b);
                let x = choose|x: int|
                    0 <= x < prev.len() && (#[trigger] prev[x]).contains_key(s)
                        && prev[x][s].contains_key(b) && prev[x][s][b] == m[s][b];
                assert(prev[x] == ls[x]);
                assert(layouts_compatible(ls[i], ls[x]));
                assert(bindings_compatible(ls[i][s], ls[x][s]));
            }
        }
    }
}

/// A layout that agrees with each of `ls` agrees with their merge.
pub proof fn lemma_compatible_with_merge_all(
    x: Map<u32, Map<u32, DescriptorInfoView>>,
    ls: Seq<Map<u32, Map<u32, DescriptorInfoView>>>,
)
    requires
        forall|i: int| 0 <= i < ls.len() ==> layouts_compatible(x, #[trigger] ls[i]),
    ensures
        layouts_compatible(x, merge_all(ls)),
{
    let m = merge_all(ls);
    assert forall|s: u32| #[trigger] x.contains_key(s) && #[trigger] m.contains_key(s) implies bindings_compatible(
        x[s],
        m[s],
    ) by {
        assert forall|b: u32| #[trigger] x[s].contains_key(b) && #[trigger] m[s].contains_key(b) implies x[s][b].ty
            == m[s][b].ty && x[s][b].name == m[s][b].name by {
            lemma_merge_all_binding_origin(ls, s, b);
            let i = choose|i: int|
                0 <= i < ls.len() && (#[trigger] ls[i]).contains_key(s) && ls[i][s].contains_key(b)
                    && ls[i][s][b] == m[s][b];
            assert(layouts_compatible(x, ls[i]));
            assert(bindings_compatible(x[s], ls[i][s]));
        }
    }
}

/// Merges the layouts of all shader stages, in order, into one: the first
/// stage's layout with each later one merged into it (see
/// `merge_shader_stage_layout_pair`); empty for no stages.
pub fn merge_shader_stage_layouts(stages: Vec<StageDescriptorSetLayout>) -> (r:
    StageDescriptorSetLayout)
    requires
        pairwise_compatible(stage_views(stages@)),
    ensures
        layout_view(r) == merge_all(stage_views(stages@)),
{
    let ghost all = stage_views(stages@);
    let mut stages = stages;
    if stages.len() == 0 {
        let r: StageDescriptorSetLayout = HashMap::new();
        assert(layout_view(r) =~= Map::empty());
        return r;
    }
    let ghost orig = stages@;
    let total = stages.len();
    let mut result = stages.remove(0);
    let mut k: usize = 1;
    assert(all.take(1) =~= seq![all[0]]);
    while stages.len() > 0
        invariant
            all == stage_views(orig),
            pairwise_compatible(all),
            1 <= k <= orig.len(),
            total == orig.len(),
            stages@ == orig.subrange(k as int, orig.len() as int),
            layout_view(result) == merge_all(all.take(k as int)),
        decreases stages.len(),
    {
        let stage = stages.remove(0);
        proof {
            let prefix = all.take(k as int);
            assert forall|i: int| 0 <= i < prefix.len() implies layouts_compatible(
                all[k as int],
                #[trigger] prefix[i],
            ) by {
                assert(prefix[i] == all[i]);
            }
            lemma_compatible_with_merge_all(all[k as int], prefix);
            assert(layout_view(stage) == all[k as int]);
            assert(all.take(k + 1).drop_last() =~= prefix);
        }
        merge_shader_stage_layout_pair(stage, &mut result);
        k = k + 1;
    }
    assert(all.take(k as int) =~= all);
    result
}

/// Whether every two of the stage layouts agree on the bindings they share.
pub fn stage_layouts_all_agree(stages: &Vec<StageDescriptorSetLayout>) -> (r: bool)
    ensures
        r == pairwise_compatible(stage_views(stages@)),
{
    let ghost all = stage_views(stages@);
    let n = stages.len();
    let mut j: usize = 1;
    while j < n
        invariant
            n == stages@.len(),
            all == stage_views(stages@),
            1 <= j <= n || n == 0,
            forall|x: int, y: int|
                0 <= x < y < j && y < n ==> layouts_compatible(#[trigger] all[y], #[trigger] all[x]),
        decreases n - j,
    {
        let mut i: usize = 0;
        while i < j
            invariant
                n == stages@.len(),
                all == stage_views(stages@),
                1 <= j < n,
                0 <= i <= j,
                forall|x: int, y: int|
                    0 <= x < y < j ==> layouts_compatible(#[trigger] all[y], #[trigger] all[x]),
                forall|x: int| 0 <= x < i ==> layouts_compatible(all[j as int], #[trigger] all[x]),
            decreases j - i,
        {
            if !stage_layouts_agree(&stages[j], &stages[i]) {
                assert(!layouts_compatible(all[j as int], all[i as int]));
                return false;
            }
            i = i + 1;
        }
        j = j + 1;
    }
    true
}


/// Merging a layout into itself, an empty layout into it, or it into an empty
/// layout, gives it back.
pub proof fn lemma_merge_identities(m: Map<u32, Map<u32, DescriptorInfoView>>)
    ensures
        merge_layouts(m, m) == m,
        merge_layouts(m, Map::empty()) == m,
        merge_layouts(Map::empty(), m) == m,
{
    assert forall|s: u32| #[trigger] m.contains_key(s) implies m[s].union_prefer_right(m[s]) == m[s] by {
        assert(m[s].union_prefer_right(m[s]) =~= m[s]);
    }
    assert(merge_layouts(m, m) =~= m);
    assert(merge_layouts(m, Map::empty()) =~= m);
    assert(merge_layouts(Map::empty(), m) =~= m);
}

/// A merge keeps every set and binding of `dst` as it was, and holds every set
/// and binding of `src`; where the two agree, with `src`'s type and name.
pub proof fn lemma_merge_keeps_bindings(
    dst: Map<u32, Map<u32, DescriptorInfoView>>,
    src: Map<u32, Map<u32, DescriptorInfoView>>,
    s: u32,
    b: u32,
)
    ensures
        dst.contains_key(s) && dst[s].contains_key(b) ==> merge_layouts(dst, src).contains_key(s)
            && merge_layouts(dst, src)[s].contains_key(b) && merge_layouts(dst, src)[s][b]
            == dst[s][b],
        src.contains_key(s) && src[s].contains_key(b) ==> merge_layouts(dst, src).contains_key(s)
            && merge_layouts(dst, src)[s].contains_key(b),
        src.contains_key(s) && src[s].contains_key(b) && layouts_compatible(src, dst) ==> merge_layouts(
            dst,
            src,
        )[s][b].ty == src[s][b].ty && merge_layouts(dst, src)[s][b].name == src[s][b].name,
{
}

/// Two layouts agree with each other or disagree with each other.
pub proof fn lemma_layouts_compatible_symmetric(
    a: Map<u32, Map<u32, DescriptorInfoView>>,
    b: Map<u32, Map<u32, DescriptorInfoView>>,
)
    ensures
        layouts_compatible(a, b) == layouts_compatible(b, a),
{
}

} // verus!
