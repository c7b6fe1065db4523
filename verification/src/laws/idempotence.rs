//! Binding the same value twice gives what binding it once gives.
use vstd::prelude::*;
use crate::node::apply::{
    bind,
    bind_as,
    bind_extra,
    bind_fixed,
    bind_items,
    bind_node,
    bind_object,
    first_matching,
    first_matching_key,
    has_fixed_key,
    matching,
    ApplyError,
};
use crate::node::{
    entries_put,
    keys_unique,
    well_formed,
    ArrayV,
    ContainerV,
    EnumV,
    NodeV,
    ObjectV,
    TemplateV,
};
use crate::seqs::{first_index, lemma_first_index, lemma_first_index_is, lemma_first_index_none};
use crate::value::{
    key_index,
    key_value,
    keys_sorted,
    lemma_key_index,
    lemma_key_index_is,
    lemma_sorted_keys_unique,
    value_well_formed,
    ValueV,
};

verus! {

/// What binding a dictionary does to one child of an object that stays.
pub open spec fn child_step(
    e: (Seq<char>, ContainerV),
    d: Seq<(Seq<char>, ValueV)>,
    modified: bool,
) -> Result<ContainerV, ApplyError> {
    match key_value(d, e.0) {
        Some(v) => bind_as(e.1, e.1.removable, v, modified),
        None => match e.1.default {
            Some(dv) => bind_as(e.1, e.1.removable, dv, false),
            None => Ok(e.1),
        },
    }
}

/// The entries among the first `i` that are not removable.
pub open spec fn fixed_prefix(m: Seq<(Seq<char>, ContainerV)>, i: int) -> Seq<
    (Seq<char>, ContainerV),
>
    decreases i,
{
    if i <= 0 || i > m.len() {
        Seq::empty()
    } else if m[i - 1].1.removable {
        fixed_prefix(m, i - 1)
    } else {
        fixed_prefix(m, i - 1).push(m[i - 1])
    }
}

/// Every entry of `fixed_prefix` is one of the first `i` entries.
pub proof fn lemma_fixed_prefix_members(m: Seq<(Seq<char>, ContainerV)>, i: int)
    requires
        0 <= i <= m.len(),
    ensures
        forall|j: int|
            0 <= j < fixed_prefix(m, i).len() ==> exists|x: int|
                0 <= x < i && m[x] == #[trigger] fixed_prefix(m, i)[j],
    decreases i,
{
    if i > 0 {
        lemma_fixed_prefix_members(m, i - 1);
        let f = fixed_prefix(m, i);
        let g = fixed_prefix(m, i - 1);
        assert forall|j: int| 0 <= j < f.len() implies exists|x: int|
            0 <= x < i && m[x] == #[trigger] f[j] by {
            if j < g.len() {
                let x = choose|x: int| 0 <= x < i - 1 && m[x] == g[j];
                assert(m[x] == f[j]);
            } else {
                assert(m[i - 1] == f[j]);
            }
        }
    }
}

/// What holds of the children that were bound so far while a dictionary
/// is bound to the first `i` children of an object: they are the
/// children that stay, none of them removable, each under another key,
/// and binding the dictionary to any of them again changes nothing.
pub open spec fn fixed_so_far(
    o: ObjectV,
    d: Seq<(Seq<char>, ValueV)>,
    modified: bool,
    i: int,
    acc: Seq<(Seq<char>, ContainerV)>,
) -> bool {
    &&& keys_unique(acc)
    &&& forall|j: int|
        0 <= j < acc.len() ==> !(#[trigger] acc[j]).1.removable && has_fixed_key(
            o.nodes,
            acc[j].0,
        ) && child_step(acc[j], d, modified) == Ok::<ContainerV, ApplyError>(acc[j].1) && (
        key_index(o.nodes, acc[j].0) matches Some(x) && x < i)
    &&& forall|x: int|
        0 <= x < i && x < o.nodes.len() && !(#[trigger] o.nodes[x]).1.removable ==> key_index(
            acc,
            o.nodes[x].0,
        ) is Some
}

/// Binding a value to a well-formed tree a second time gives the tree
/// that binding it the first time gave.
pub proof fn lemma_bind_twice(c: ContainerV, removable: bool, v: ValueV, modified: bool)
    requires
        well_formed(c),
        value_well_formed(v),
        bind_as(c, removable, v, modified) is Ok,
    ensures
        bind_as(bind_as(c, removable, v, modified)->Ok_0, removable, v, modified) == bind_as(
            c,
            removable,
            v,
            modified,
        ),
    decreases c, 1nat,
{
    let c1 = bind_as(c, removable, v, modified)->Ok_0;
    match (v, c.node) {
        (ValueV::String(_), NodeV::Enum(e)) => {
            lemma_first_index(e.nodes, |x: ContainerV| matching(x, v));
            let pos = first_matching(e.nodes, v)->0;
            let b = bind_as(e.nodes[pos], e.nodes[pos].removable, v, modified)->Ok_0;
            lemma_bind_twice(e.nodes[pos], e.nodes[pos].removable, v, modified);
            let nodes2 = e.nodes.update(pos, b);
            assert(matching(b, v));
            assert forall|j: int| 0 <= j < pos implies !(|x: ContainerV| matching(x, v))(
                #[trigger] nodes2[j],
            ) by {
                assert(nodes2[j] == e.nodes[j]);
            }
            lemma_first_index_is(nodes2, |x: ContainerV| matching(x, v), pos);
            assert(nodes2.update(pos, b) =~= nodes2);
        },
        (ValueV::Empty(_), NodeV::Enum(e)) => {
            lemma_first_index(e.nodes, |x: ContainerV| matching(x, v));
            let pos = first_matching(e.nodes, v)->0;
            let chosen = ContainerV { modified, ..e.nodes[pos] };
            let nodes2 = e.nodes.update(pos, chosen);
            assert(matching(chosen, v) == matching(e.nodes[pos], v));
            assert forall|j: int| 0 <= j < pos implies !(|x: ContainerV| matching(x, v))(
                #[trigger] nodes2[j],
            ) by {
                assert(nodes2[j] == e.nodes[j]);
            }
            lemma_first_index_is(nodes2, |x: ContainerV| matching(x, v), pos);
            assert(nodes2.update(pos, ContainerV { modified, ..nodes2[pos] }) =~= nodes2);
        },
        (ValueV::Array(vs), NodeV::Array(a)) => {
            let a2 = c1.node->Array_0;
            lemma_bind_items_by_template(a, a2, vs, modified, 0, Seq::empty());
        },
        (ValueV::Dict(d), NodeV::Object(o)) => {
            lemma_bind_object_twice(o, d, modified);
        },
        (ValueV::Dict(d), NodeV::Enum(e)) => {
            lemma_bind_dict_to_enum_twice(e, d, modified);
        },
        _ => {},
    }
}

/// The items that an array makes depend on its template only.
pub proof fn lemma_bind_items_by_template(
    a: ArrayV,
    b: ArrayV,
    vs: Seq<ValueV>,
    modified: bool,
    i: int,
    acc: Seq<ContainerV>,
)
    requires
        a.template == b.template,
        0 <= i,
    ensures
        bind_items(a, vs, modified, i, acc) == bind_items(b, vs, modified, i, acc),
    decreases vs.len() - i,
{
    if i < vs.len() {
        let r = match a.template {
            TemplateV::All(t) => bind_as(*t, true, vs[i], modified),
            TemplateV::FirstN(shapes) => if i < shapes.len() {
                bind_as(shapes[i], shapes[i].removable, vs[i], modified)
            } else {
                Err(ApplyError::NoCompatibleNode)
            },
        };
        match r {
            Ok(n) => {
                lemma_bind_items_by_template(a, b, vs, modified, i + 1, acc.push(n));
            },
            Err(_) => {},
        }
    }
}

/// The children that stay keep what `fixed_so_far` says of them.
pub proof fn lemma_bind_fixed_shape(
    o: ObjectV,
    d: Seq<(Seq<char>, ValueV)>,
    modified: bool,
    i: int,
    acc: Seq<(Seq<char>, ContainerV)>,
)
    requires
        0 <= i <= o.nodes.len(),
        well_formed(plain_object(o)),
        value_well_formed(ValueV::Dict(d)),
        fixed_so_far(o, d, modified, i, acc),
        bind_fixed(o, d, modified, i, acc) is Ok,
    ensures
        fixed_so_far(o, d, modified, o.nodes.len() as int, bind_fixed(o, d, modified, i, acc)->Ok_0),
    decreases o, o.nodes.len() - i,
{
    if i < o.nodes.len() {
        let k = o.nodes[i].0;
        let c = o.nodes[i].1;
        lemma_key_index(o.nodes, k);
        lemma_key_index_is(o.nodes, k, i);
        if c.removable {
            lemma_bind_fixed_shape(o, d, modified, i + 1, acc);
        } else {
            lemma_key_index(d, k);
            let whole = ValueV::Dict(d);
            let n = match key_value(d, k) {
                Some(x) => {
                    let at = key_index(d, k)->0;
                    assert(whole->Dict_0[at].1 == x);
                    lemma_bind_twice(o.nodes[i].1, c.removable, x, modified);
                    bind_as(o.nodes[i].1, c.removable, x, modified)->Ok_0
                },
                None => match c.default {
                    Some(dv) => {
                        assert(well_formed(o.nodes[i].1));
                        lemma_bind_twice(o.nodes[i].1, c.removable, dv, false);
                        bind_as(o.nodes[i].1, c.removable, dv, false)->Ok_0
                    },
                    None => c,
                },
            };
            let acc2 = entries_put(acc, k, n);
            // The key is new among what was bound so far.
            lemma_key_index(acc, k);
            if key_index(acc, k) is Some {
                let j = key_index(acc, k)->0;
                assert(acc[j].0 == k);
                assert(false);
            }
            assert(acc2 == acc.push((k, n)));
            assert(child_step((k, n), d, modified) == Ok::<ContainerV, ApplyError>(n));
            assert forall|j: int| 0 <= j < acc2.len() implies !(#[trigger] acc2[j]).1.removable
                && has_fixed_key(o.nodes, acc2[j].0) && child_step(acc2[j], d, modified) == Ok::<
                ContainerV,
                ApplyError,
            >(acc2[j].1) && (key_index(o.nodes, acc2[j].0) matches Some(x) && x < i + 1) by {
                if j < acc.len() {
                    assert(acc2[j] == acc[j]);
                }
            }
            assert(keys_unique(acc2)) by {
                assert forall|a: int, b: int|
                    0 <= a < acc2.len() && 0 <= b < acc2.len() && a != b implies (
                #[trigger] acc2[a]).0 != (#[trigger] acc2[b]).0 by {
                    if a < acc.len() && b < acc.len() {
                        assert(acc2[a] == acc[a]);
                        assert(acc2[b] == acc[b]);
                    } else if a < acc.len() {
                        assert(acc2[a] == acc[a]);
                    } else {
                        assert(acc2[b] == acc[b]);
                    }
                }
            }
            assert forall|x: int|
                0 <= x < i + 1 && x < o.nodes.len() && !(
                #[trigger] o.nodes[x]).1.removable implies key_index(acc2, o.nodes[x].0) is Some by {
                lemma_key_index(acc2, o.nodes[x].0);
                if x < i {
                    lemma_key_index(acc, o.nodes[x].0);
                    let j = key_index(acc, o.nodes[x].0)->0;
                    assert(acc2[j] == acc[j]);
                } else {
                    assert(acc2[acc.len() as int].0 == k);
                }
            }
            lemma_bind_fixed_shape(o, d, modified, i + 1, acc2);
        }
    }
}

/// An object as the payload of a container without marks.
pub open spec fn plain_object(o: ObjectV) -> ContainerV {
    ContainerV {
        node: NodeV::Object(o),
        default: None,
        title: None,
        desc: None,
        modified: false,
        removable: false,
    }
}

/// What holds of the children that were made so far while an object
/// makes children from its template for the first `i` entries of a
/// dictionary: they follow the children `f` that stay, each is removable
/// and under a key of its own that no fixed child has, and every entry
/// so far whose key no fixed child has got one.
pub open spec fn extra_so_far(
    o: ObjectV,
    d: Seq<(Seq<char>, ValueV)>,
    f: Seq<(Seq<char>, ContainerV)>,
    i: int,
    acc: Seq<(Seq<char>, ContainerV)>,
) -> bool {
    &&& f.len() <= acc.len()
    &&& acc.subrange(0, f.len() as int) == f
    &&& keys_unique(acc)
    &&& forall|x: int|
        f.len() <= x < acc.len() ==> (#[trigger] acc[x]).1.removable && !has_fixed_key(
            o.nodes,
            acc[x].0,
        ) && (key_index(d, acc[x].0) matches Some(j) && j < i)
    &&& forall|j: int|
        0 <= j < i && j < d.len() && !has_fixed_key(o.nodes, (#[trigger] d[j]).0) ==> key_index(
            acc,
            d[j].0,
        ) is Some
}

/// The children made from the template keep what `extra_so_far` says of
/// them.
pub proof fn lemma_bind_extra_shape(
    o: ObjectV,
    d: Seq<(Seq<char>, ValueV)>,
    modified: bool,
    f: Seq<(Seq<char>, ContainerV)>,
    i: int,
    acc: Seq<(Seq<char>, ContainerV)>,
)
    requires
        0 <= i <= d.len(),
        o.template is Some,
        keys_sorted(d),
        fixed_so_far(o, d, modified, o.nodes.len() as int, f),
        extra_so_far(o, d, f, i, acc),
        bind_extra(o, d, modified, i, acc) is Ok,
    ensures
        extra_so_far(o, d, f, d.len() as int, bind_extra(o, d, modified, i, acc)->Ok_0),
    decreases d.len() - i,
{
    if i < d.len() {
        let t = o.template->0;
        let k = d[i].0;
        lemma_sorted_keys_unique(d);
        lemma_key_index(d, k);
        lemma_key_index_is(d, k, i);
        if has_fixed_key(o.nodes, k) {
            assert forall|x: int| f.len() <= x < acc.len() implies (
            #[trigger] acc[x]).1.removable && !has_fixed_key(o.nodes, acc[x].0) && (key_index(
                d,
                acc[x].0,
            ) matches Some(j) && j < i + 1) by {}
            lemma_bind_extra_shape(o, d, modified, f, i + 1, acc);
        } else {
            let n = bind_as(*t, true, d[i].1, modified)->Ok_0;
            let acc2 = entries_put(acc, k, n);
            lemma_key_index(acc, k);
            if key_index(acc, k) is Some {
                let x = key_index(acc, k)->0;
                if x < f.len() {
                    assert(acc.subrange(0, f.len() as int)[x] == acc[x]);
                    assert(has_fixed_key(o.nodes, f[x].0));
                } else {
                    assert(acc[x].0 == k);
                }
                assert(false);
            }
            assert(acc2 == acc.push((k, n)));
            assert(acc2.subrange(0, f.len() as int) =~= acc.subrange(0, f.len() as int));
            assert(keys_unique(acc2)) by {
                assert forall|a: int, b: int|
                    0 <= a < acc2.len() && 0 <= b < acc2.len() && a != b implies (
                #[trigger] acc2[a]).0 != (#[trigger] acc2[b]).0 by {
                    if a < acc.len() && b < acc.len() {
                        assert(acc2[a] == acc[a]);
                        assert(acc2[b] == acc[b]);
                    } else if a < acc.len() {
                        assert(acc2[a] == acc[a]);
                    } else {
                        assert(acc2[b] == acc[b]);
                    }
                }
            }
            assert forall|x: int| f.len() <= x < acc2.len() implies (
            #[trigger] acc2[x]).1.removable && !has_fixed_key(o.nodes, acc2[x].0) && (key_index(
                d,
                acc2[x].0,
            ) matches Some(j) && j < i + 1) by {
                if x < acc.len() {
                    assert(acc2[x] == acc[x]);
                }
            }
            assert forall|j: int|
                0 <= j < i + 1 && j < d.len() && !has_fixed_key(
                    o.nodes,
                    (#[trigger] d[j]).0,
                ) implies key_index(acc2, d[j].0) is Some by {
                lemma_key_index(acc2, d[j].0);
                if j < i {
                    lemma_key_index(acc, d[j].0);
                    let x = key_index(acc, d[j].0)->0;
                    assert(acc2[x] == acc[x]);
                } else {
                    assert(acc2[acc.len() as int].0 == k);
                }
            }
            lemma_bind_extra_shape(o, d, modified, f, i + 1, acc2);
        }
    }
}

/// The entries that are not removable, of entries that begin with
/// entries that are not removable and go on with removable ones, are the
/// first ones.
pub proof fn lemma_fixed_prefix_of_split(
    r: Seq<(Seq<char>, ContainerV)>,
    f: Seq<(Seq<char>, ContainerV)>,
    i: int,
)
    requires
        f.len() <= r.len(),
        r.subrange(0, f.len() as int) == f,
        forall|x: int| 0 <= x < f.len() ==> !(#[trigger] f[x]).1.removable,
        forall|x: int| f.len() <= x < r.len() ==> (#[trigger] r[x]).1.removable,
        0 <= i <= r.len(),
    ensures
        fixed_prefix(r, i) == if i <= f.len() {
            f.subrange(0, i)
        } else {
            f
        },
    decreases i,
{
    if i > 0 {
        lemma_fixed_prefix_of_split(r, f, i - 1);
        if i <= f.len() {
            assert(r.subrange(0, f.len() as int)[i - 1] == r[i - 1]);
            assert(f.subrange(0, i - 1).push(f[i - 1]) =~= f.subrange(0, i));
        } else {
            assert(f.subrange(0, f.len() as int) =~= f);
        }
    } else {
        assert(f.subrange(0, 0) =~= Seq::<(Seq<char>, ContainerV)>::empty());
    }
}

/// Binding a dictionary again to children that it changes no more gives
/// the children that are not removable, as they are.
pub proof fn lemma_rebind_fixed(
    o: ObjectV,
    d: Seq<(Seq<char>, ValueV)>,
    modified: bool,
    i: int,
)
    requires
        0 <= i <= o.nodes.len(),
        keys_unique(o.nodes),
        forall|x: int|
            0 <= x < o.nodes.len() && !(#[trigger] o.nodes[x]).1.removable ==> child_step(
                o.nodes[x],
                d,
                modified,
            ) == Ok::<ContainerV, ApplyError>(o.nodes[x].1),
    ensures
        bind_fixed(o, d, modified, i, fixed_prefix(o.nodes, i)) == Ok::<
            Seq<(Seq<char>, ContainerV)>,
            ApplyError,
        >(fixed_prefix(o.nodes, o.nodes.len() as int)),
    decreases o.nodes.len() - i,
{
    if i < o.nodes.len() {
        let k = o.nodes[i].0;
        let c = o.nodes[i].1;
        let acc = fixed_prefix(o.nodes, i);
        if c.removable {
            lemma_rebind_fixed(o, d, modified, i + 1);
        } else {
            assert(child_step(o.nodes[i], d, modified) == Ok::<ContainerV, ApplyError>(c));
            lemma_fixed_prefix_members(o.nodes, i);
            lemma_key_index(acc, k);
            if key_index(acc, k) is Some {
                let j = key_index(acc, k)->0;
                let x = choose|x: int| 0 <= x < i && o.nodes[x] == acc[j];
                assert(o.nodes[x].0 == o.nodes[i].0);
                assert(false);
            }
            assert(entries_put(acc, k, c) == acc.push((k, c)));
            assert(acc.push((k, c)) == fixed_prefix(o.nodes, i + 1));
            lemma_rebind_fixed(o, d, modified, i + 1);
        }
    }
}

/// Which children an object makes from its template depends on which
/// keys its fixed children have, and on its template.
pub proof fn lemma_bind_extra_by_fixed_keys(
    o: ObjectV,
    o2: ObjectV,
    d: Seq<(Seq<char>, ValueV)>,
    modified: bool,
    i: int,
    acc: Seq<(Seq<char>, ContainerV)>,
)
    requires
        0 <= i,
        o.template == o2.template,
        forall|j: int|
            0 <= j < d.len() ==> has_fixed_key(o.nodes, (#[trigger] d[j]).0) == has_fixed_key(
                o2.nodes,
                d[j].0,
            ),
    ensures
        bind_extra(o, d, modified, i, acc) == bind_extra(o2, d, modified, i, acc),
    decreases d.len() - i,
{
    if i < d.len() {
        match o.template {
            Some(t) => {
                assert(has_fixed_key(o.nodes, d[i].0) == has_fixed_key(o2.nodes, d[i].0));
                if has_fixed_key(o.nodes, d[i].0) {
                    lemma_bind_extra_by_fixed_keys(o, o2, d, modified, i + 1, acc);
                } else {
                    match bind_as(*t, true, d[i].1, modified) {
                        Ok(n) => {
                            lemma_bind_extra_by_fixed_keys(
                                o,
                                o2,
                                d,
                                modified,
                                i + 1,
                                entries_put(acc, d[i].0, n),
                            );
                        },
                        Err(_) => {},
                    }
                }
            },
            None => {},
        }
    }
}

/// An object after a dictionary was bound to it has a fixed child under
/// a key where it had one before, and only there.
pub proof fn lemma_fixed_keys_stay(
    o: ObjectV,
    d: Seq<(Seq<char>, ValueV)>,
    modified: bool,
    f: Seq<(Seq<char>, ContainerV)>,
    r: Seq<(Seq<char>, ContainerV)>,
    k: Seq<char>,
)
    requires
        keys_unique(o.nodes),
        fixed_so_far(o, d, modified, o.nodes.len() as int, f),
        f.len() <= r.len(),
        r.subrange(0, f.len() as int) == f,
        keys_unique(r),
        forall|x: int| f.len() <= x < r.len() ==> (#[trigger] r[x]).1.removable,
    ensures
        has_fixed_key(r, k) == has_fixed_key(o.nodes, k),
{
    lemma_key_index(r, k);
    lemma_key_index(o.nodes, k);
    if has_fixed_key(o.nodes, k) {
        let x = key_index(o.nodes, k)->0;
        assert(!o.nodes[x].1.removable);
        lemma_key_index(f, k);
        let j = key_index(f, k)->0;
        assert(r.subrange(0, f.len() as int)[j] == r[j]);
        assert(r[j].0 == k);
        let q = key_index(r, k)->0;
        assert(q == j);
    } else {
        if has_fixed_key(r, k) {
            let q = key_index(r, k)->0;
            assert(q < f.len());
            assert(r.subrange(0, f.len() as int)[q] == r[q]);
            assert(has_fixed_key(o.nodes, f[q].0));
            assert(false);
        }
    }
}

/// The children of an object after a dictionary was bound to it: the
/// children `f` that stay, then removable ones; each under a key of its
/// own; with a child under every key that a fixed child had, and, where
/// the object has a template, under every key of the dictionary.
pub open spec fn bound_children(
    o: ObjectV,
    d: Seq<(Seq<char>, ValueV)>,
    modified: bool,
    f: Seq<(Seq<char>, ContainerV)>,
    r: Seq<(Seq<char>, ContainerV)>,
) -> bool {
    &&& fixed_so_far(o, d, modified, o.nodes.len() as int, f)
    &&& f.len() <= r.len()
    &&& r.subrange(0, f.len() as int) == f
    &&& keys_unique(r)
    &&& forall|x: int| f.len() <= x < r.len() ==> (#[trigger] r[x]).1.removable
    &&& o.template is Some ==> forall|j: int|
        0 <= j < d.len() && !has_fixed_key(o.nodes, (#[trigger] d[j]).0) ==> key_index(r, d[j].0)
            is Some
}

/// What `bound_children` says holds of the children of an object after
/// a dictionary was bound to it.
pub proof fn lemma_bound_children(o: ObjectV, d: Seq<(Seq<char>, ValueV)>, modified: bool)
    requires
        well_formed(plain_object(o)),
        value_well_formed(ValueV::Dict(d)),
        bind_object(o, d, modified) is Ok,
    ensures
        bind_object(o, d, modified)->Ok_0 is Object,
        bind_object(o, d, modified)->Ok_0->Object_0.template == o.template,
        bound_children(
            o,
            d,
            modified,
            bind_fixed(o, d, modified, 0, Seq::empty())->Ok_0,
            bind_object(o, d, modified)->Ok_0->Object_0.nodes,
        ),
    decreases o, o.nodes.len() + d.len() + 2,
{
    let empty = Seq::<(Seq<char>, ContainerV)>::empty();
    assert(fixed_so_far(o, d, modified, 0, empty));
    lemma_bind_fixed_shape(o, d, modified, 0, empty);
    let f = bind_fixed(o, d, modified, 0, empty)->Ok_0;
    match o.template {
        Some(t) => {
            assert(f.subrange(0, f.len() as int) =~= f);
            assert(extra_so_far(o, d, f, 0, f));
            lemma_bind_extra_shape(o, d, modified, f, 0, f);
        },
        None => {
            assert(f.subrange(0, f.len() as int) =~= f);
        },
    }
}

/// Binding the dictionary again to the children of an object that it
/// was bound to gives the children that stay, as they are.
pub proof fn lemma_rebind_bound_fixed(
    o: ObjectV,
    o2: ObjectV,
    d: Seq<(Seq<char>, ValueV)>,
    modified: bool,
    f: Seq<(Seq<char>, ContainerV)>,
)
    requires
        bound_children(o, d, modified, f, o2.nodes),
    ensures
        bind_fixed(o2, d, modified, 0, Seq::empty()) == Ok::<
            Seq<(Seq<char>, ContainerV)>,
            ApplyError,
        >(f),
{
    let r = o2.nodes;
    let empty = Seq::<(Seq<char>, ContainerV)>::empty();
    assert forall|x: int| 0 <= x < r.len() && !(#[trigger] r[x]).1.removable implies child_step(
        r[x],
        d,
        modified,
    ) == Ok::<ContainerV, ApplyError>(r[x].1) by {
        assert(r.subrange(0, f.len() as int)[x] == r[x]);
    }
    lemma_rebind_fixed(o2, d, modified, 0);
    lemma_fixed_prefix_of_split(r, f, r.len() as int);
    assert(f.subrange(0, f.len() as int) =~= f);
    assert(fixed_prefix(r, r.len() as int) == f);
    assert(fixed_prefix(r, 0) =~= empty);
}

/// Binding the dictionary again to an object that it was bound to makes
/// the same children from the template.
pub proof fn lemma_rebind_bound_extra(
    o: ObjectV,
    o2: ObjectV,
    d: Seq<(Seq<char>, ValueV)>,
    modified: bool,
    f: Seq<(Seq<char>, ContainerV)>,
)
    requires
        keys_unique(o.nodes),
        o.template == o2.template,
        bound_children(o, d, modified, f, o2.nodes),
    ensures
        bind_extra(o2, d, modified, 0, f) == bind_extra(o, d, modified, 0, f),
{
    assert forall|j: int| 0 <= j < d.len() implies has_fixed_key(o.nodes, (#[trigger] d[j]).0)
        == has_fixed_key(o2.nodes, d[j].0) by {
        lemma_fixed_keys_stay(o, d, modified, f, o2.nodes, d[j].0);
    }
    lemma_bind_extra_by_fixed_keys(o, o2, d, modified, 0, f);
}

/// Binding a dictionary to a well-formed object a second time gives the
/// object that binding it the first time gave.
pub proof fn lemma_bind_object_twice(o: ObjectV, d: Seq<(Seq<char>, ValueV)>, modified: bool)
    requires
        well_formed(plain_object(o)),
        value_well_formed(ValueV::Dict(d)),
        bind_object(o, d, modified) is Ok,
    ensures
        bind_object(o, d, modified)->Ok_0 is Object,
        bind_object(bind_object(o, d, modified)->Ok_0->Object_0, d, modified) == bind_object(
            o,
            d,
            modified,
        ),
    decreases o, o.nodes.len() + d.len() + 3,
{
    lemma_bound_children(o, d, modified);
    let f = bind_fixed(o, d, modified, 0, Seq::empty())->Ok_0;
    let o2 = bind_object(o, d, modified)->Ok_0->Object_0;
    lemma_rebind_bound_fixed(o, o2, d, modified, f);
    lemma_rebind_bound_extra(o, o2, d, modified, f);
}

/// After a dictionary was bound to a well-formed object, the object has
/// a child under every key of the dictionary that it had a child under
/// before.
pub proof fn lemma_bound_object_keeps_key(
    o: ObjectV,
    d: Seq<(Seq<char>, ValueV)>,
    modified: bool,
    j: int,
)
    requires
        well_formed(plain_object(o)),
        value_well_formed(ValueV::Dict(d)),
        bind_object(o, d, modified) is Ok,
        0 <= j < d.len(),
        key_index(o.nodes, d[j].0) is Some,
    ensures
        bind_object(o, d, modified)->Ok_0 is Object,
        key_index(bind_object(o, d, modified)->Ok_0->Object_0.nodes, d[j].0) is Some,
    decreases o, o.nodes.len() + d.len() + 3,
{
    lemma_bound_children(o, d, modified);
    let f = bind_fixed(o, d, modified, 0, Seq::empty())->Ok_0;
    let r = bind_object(o, d, modified)->Ok_0->Object_0.nodes;
    let k = d[j].0;
    lemma_key_index(o.nodes, k);
    lemma_key_index(r, k);
    let x = key_index(o.nodes, k)->0;
    if has_fixed_key(o.nodes, k) {
        lemma_key_index(f, k);
        let q = key_index(f, k)->0;
        assert(r.subrange(0, f.len() as int)[q] == r[q]);
        assert(r[q].0 == k);
    } else {
        assert(o.nodes[x].1.removable);
        assert(o.template is Some);
    }
}

/// Binding a dictionary to an enum a second time chooses the same variant
/// and leaves it as it is.
pub proof fn lemma_bind_dict_to_enum_twice(e: EnumV, d: Seq<(Seq<char>, ValueV)>, modified: bool)
    requires
        well_formed(plain_enum(e)),
        value_well_formed(ValueV::Dict(d)),
        bind_node(NodeV::Enum(e), ValueV::Dict(d), modified) is Ok,
    ensures
        bind_node(
            bind_node(NodeV::Enum(e), ValueV::Dict(d), modified)->Ok_0,
            ValueV::Dict(d),
            modified,
        ) == bind_node(NodeV::Enum(e), ValueV::Dict(d), modified),
    decreases e, 2nat,
{
    let v = ValueV::Dict(d);
    let on_key = |nodes: Seq<ContainerV>|
        |x: (Seq<char>, ValueV)| first_matching(nodes, ValueV::String(x.0)) is Some;
    let takes = |k: Seq<char>| |x: ContainerV| matching(x, ValueV::String(k));
    lemma_first_index(d, on_key(e.nodes));
    let i0 = first_index(d, on_key(e.nodes))->0;
    let k0 = d[i0].0;
    lemma_first_index(e.nodes, takes(k0));
    let pos = first_matching(e.nodes, ValueV::String(k0))->0;
    assert(first_matching_key(e.nodes, d) == Some(pos));
    let variant = e.nodes[pos];
    assert(well_formed(variant));
    let b = bind_as(variant, variant.removable, v, modified)->Ok_0;
    lemma_bind_twice(variant, variant.removable, v, modified);
    let nodes2 = e.nodes.update(pos, b);
    // The variant is an object that has the key, and still has it.
    let o = variant.node->Object_0;
    assert(variant.node is Object);
    assert(well_formed(plain_object(o)));
    lemma_bound_object_keeps_key(o, d, modified, i0);
    assert(matching(b, ValueV::String(k0)));
    // Before the key that chose, only this variant can take a key.
    assert forall|i: int| 0 <= i < i0 implies first_matching(
        nodes2,
        ValueV::String((#[trigger] d[i]).0),
    ) == if matching(b, ValueV::String(d[i].0)) {
        Some(pos)
    } else {
        None
    } by {
        let p = takes(d[i].0);
        lemma_first_index(e.nodes, p);
        assert(!on_key(e.nodes)(d[i]));
        assert(first_index(e.nodes, p) is None);
        assert forall|j: int| 0 <= j < nodes2.len() && j != pos implies !p(
            #[trigger] nodes2[j],
        ) by {
            assert(nodes2[j] == e.nodes[j]);
        }
        if matching(b, ValueV::String(d[i].0)) {
            lemma_first_index_is(nodes2, p, pos);
        } else {
            lemma_first_index_none(nodes2, p);
        }
    }
    assert(first_matching(nodes2, ValueV::String(k0)) == Some(pos)) by {
        let p = takes(k0);
        assert forall|j: int| 0 <= j < pos implies !p(#[trigger] nodes2[j]) by {
            assert(nodes2[j] == e.nodes[j]);
        }
        lemma_first_index_is(nodes2, p, pos);
    }
    lemma_first_index(d, on_key(nodes2));
    assert(on_key(nodes2)(d[i0]));
    let i1 = first_index(d, on_key(nodes2))->0;
    assert(i1 <= i0);
    assert(first_matching(nodes2, ValueV::String(d[i1].0)) == Some(pos));
    assert(first_matching_key(nodes2, d) == Some(pos));
    assert(nodes2.update(pos, b) =~= nodes2);
}

/// An enum as the payload of a container without marks.
pub open spec fn plain_enum(e: EnumV) -> ContainerV {
    ContainerV {
        node: NodeV::Enum(e),
        default: None,
        title: None,
        desc: None,
        modified: false,
        removable: false,
    }
}

/// Idempotence: binding a value to a well-formed tree, and then the
/// same value to what that gave, gives the same tree again. No child that
/// an earlier binding made from a template piles up.
pub proof fn lemma_bind_idempotent(c: ContainerV, v: ValueV, modified: bool)
    requires
        well_formed(c),
        value_well_formed(v),
        bind(c, v, modified) is Ok,
    ensures
        bind(bind(c, v, modified)->Ok_0, v, modified) == bind(c, v, modified),
{
    lemma_bind_twice(c, c.removable, v, modified);
}

} // verus!
