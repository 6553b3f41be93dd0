//! What holds of every tree and of every addition to it.
use vstd::prelude::*;

use super::{
    intermediate_info, chain_view, entries_view, index_of_name, info_path_type, info_props, lookup, new_info,
    replace_below, spec_add, spec_add_last, spec_path_components, sub_view, Components, Info,
    Tree, TreeError,
};
use crate::decl::PathType;
use crate::fs;

verus! {

/// Every recorded path of at least two components lies in a recorded
/// directory.
pub open spec fn prefix_closed<P>(view: Map<Components, Info<P>>) -> bool {
    forall|p: Components|
        #![trigger view.contains_key(p)]
        view.contains_key(p) && p.len() >= 2 ==> view.contains_key(p.drop_last())
            && view[p.drop_last()] is Dir
}

proof fn lemma_lookup_parent<P>(entries: Seq<(String, super::Node<P>)>, p: Components)
    requires
        lookup(entries, p) is Some,
        p.len() >= 2,
    ensures
        lookup(entries, p.drop_last()) matches Some(fs::Entry::Dir(_)),
    decreases p.len(),
{
    let i = index_of_name(entries, p[0]);
    let parent = p.drop_last();
    assert(parent[0] == p[0]);
    if let fs::Entry::Dir(d) = entries[i].1 {
        if p.len() > 2 {
            let q = p.drop_first();
            lemma_lookup_parent(d.children.entries@, q);
            assert(parent.drop_first() =~= q.drop_last());
        }
    }
}

/// Every path on the way to a recorded path is a recorded directory.
pub proof fn law_tree_prefix_closed<P>(tree: Tree<P>)
    ensures
        prefix_closed(tree@),
{
    assert forall|p: Components|
        #![trigger tree@.contains_key(p)]
        tree@.contains_key(p) && p.len() >= 2 implies tree@.contains_key(p.drop_last())
        && tree@[p.drop_last()] is Dir by {
        lemma_lookup_parent(tree.root.entries@, p);
    }
}

proof fn lemma_prefix_closed_first<P>(view: Map<Components, Info<P>>, p: Components)
    requires
        prefix_closed(view),
        view.contains_key(p),
        p.len() >= 1,
    ensures
        view.contains_key(seq![p[0]]),
    decreases p.len(),
{
    if p.len() == 1 {
        assert(p =~= seq![p[0]]);
    } else {
        let parent = p.drop_last();
        assert(parent[0] == p[0]);
        lemma_prefix_closed_first(view, parent);
    }
}

proof fn lemma_sub_view_prefix_closed<P>(view: Map<Components, Info<P>>, name: Seq<char>)
    requires
        prefix_closed(view),
    ensures
        prefix_closed(sub_view(view, name)),
{
    let sub = sub_view(view, name);
    assert forall|q: Components|
        #![trigger sub.contains_key(q)]
        sub.contains_key(q) && q.len() >= 2 implies sub.contains_key(q.drop_last())
        && sub[q.drop_last()] is Dir by {
        let p = seq![name] + q;
        assert(view.contains_key(p));
        assert(p.drop_last() =~= seq![name] + q.drop_last());
    }
}

proof fn lemma_new_info_path_type<P>(path_type: PathType, props: P)
    ensures
        info_path_type(new_info(path_type, props)) == path_type,
        info_props(new_info(path_type, props)) == Some(props),
{
    match path_type {
        fs::Entry::Dir(d) => {
            assert(info_path_type(new_info(path_type, props)) == fs::Entry::<
                crate::decl::DirProps,
                crate::decl::FileType,
            >::Dir(crate::decl::DirProps { owns_contents: d.owns_contents }));
        },
        fs::Entry::File(_) => {},
    }
}

/// The statement of `law_add_records_path` over views.
pub proof fn lemma_add_records_path<P>(
    view: Map<Components, Info<P>>,
    comps: Components,
    path_type: PathType,
    props: P,
)
    requires
        prefix_closed(view),
        spec_add(view, comps, path_type, props) is Ok,
    ensures
        ({
            let added = spec_add(view, comps, path_type, props)->Ok_0;
            &&& added.contains_key(comps)
            &&& info_path_type(added[comps]) == path_type
            &&& !view.contains_key(comps) ==> added[comps] == new_info(path_type, props)
            &&& forall|p: Components| #[trigger]
                view.contains_key(p) && p != comps ==> added.contains_key(p) && added[p]
                    == view[p]
        }),
    decreases comps.len(),
{
    lemma_new_info_path_type(path_type, props);
    let added = spec_add(view, comps, path_type, props)->Ok_0;
    let name = comps[0];
    if comps.len() == 1 {
        assert(comps =~= seq![name]);
    } else if !view.contains_key(seq![name]) {
        let chain = chain_view(comps, new_info(path_type, props));
        assert(comps.take(comps.len() as int) =~= comps);
        assert forall|p: Components| #[trigger] view.contains_key(p) && p != comps implies added.contains_key(p)
            && added[p] == view[p] by {
            if chain.contains_key(p) {
                assert(p[0] == comps.take(p.len() as int)[0]);
                lemma_prefix_closed_first(view, p);
            }
        }
    } else {
        let sub = sub_view(view, name);
        let rest = comps.drop_first();
        lemma_sub_view_prefix_closed(view, name);
        lemma_add_records_path(sub, rest, path_type, props);
        let below = spec_add(sub, rest, path_type, props)->Ok_0;
        assert(added == replace_below(view, name, below));
        assert(seq![name] + rest =~= comps);
        assert(comps.drop_first() == rest);
        assert forall|p: Components| #[trigger] view.contains_key(p) && p != comps implies added.contains_key(p)
            && added[p] == view[p] by {
            if p.len() >= 2 && p[0] == name {
                let q = p.drop_first();
                assert(seq![name] + q =~= p);
                assert(sub.contains_key(q));
                if q == rest {
                    assert(p =~= comps);
                }
            }
        }
        if !view.contains_key(comps) {
            assert(!sub.contains_key(rest));
        }
    }
}

/// What a successful addition does to the paths around the new one: a path
/// recorded before changes only where an owning directory is declared over
/// a directory without properties; every path on the way is a directory;
/// and every path recorded after was recorded before or leads to the new
/// path.
pub proof fn lemma_add_shape<P>(
    view: Map<Components, Info<P>>,
    comps: Components,
    path_type: PathType,
    props: P,
)
    requires
        prefix_closed(view),
        spec_add(view, comps, path_type, props) is Ok,
    ensures
        view.contains_key(comps) ==> view[comps] == intermediate_info::<P>() && path_type is Dir,
        view.contains_key(comps) ==> spec_add(view, comps, path_type, props)->Ok_0[comps] == if path_type matches fs::Entry::Dir(d) && d.owns_contents {
            fs::Entry::Dir(super::DirKind::OwnsContents(props))
        } else {
            view[comps]
        },
        forall|k: int|
            1 <= k < comps.len() ==> spec_add(view, comps, path_type, props)->Ok_0.contains_key(
                #[trigger] comps.take(k),
            ) && spec_add(view, comps, path_type, props)->Ok_0[comps.take(k)] is Dir,
        forall|p: Components| #[trigger]
            spec_add(view, comps, path_type, props)->Ok_0.contains_key(p) ==> view.contains_key(p)
                || (1 <= p.len() <= comps.len() && p == comps.take(p.len() as int)),
    decreases comps.len(),
{
    let added = spec_add(view, comps, path_type, props)->Ok_0;
    let name = comps[0];
    if comps.len() == 1 {
        assert(comps =~= seq![name]);
        assert(comps.take(1) =~= comps);
    } else if !view.contains_key(seq![name]) {
        let chain = chain_view(comps, new_info(path_type, props));
        if view.contains_key(comps) {
            lemma_prefix_closed_first(view, comps);
        }
        assert forall|k: int| 1 <= k < comps.len() implies added.contains_key(
            #[trigger] comps.take(k),
        ) && added[comps.take(k)] is Dir by {
            assert(comps.take(k).take(k) =~= comps.take(k));
            assert(chain.contains_key(comps.take(k)));
        }
    } else {
        let sub = sub_view(view, name);
        let rest = comps.drop_first();
        lemma_sub_view_prefix_closed(view, name);
        lemma_add_shape(sub, rest, path_type, props);
        let below = spec_add(sub, rest, path_type, props)->Ok_0;
        assert(added == replace_below(view, name, below));
        assert(seq![name] + rest =~= comps);
        if view.contains_key(comps) {
            assert(sub.contains_key(rest));
            lemma_add_records_path(sub, rest, path_type, props);
            assert(comps.drop_first() == rest);
        }
        assert forall|k: int| 1 <= k < comps.len() implies added.contains_key(
            #[trigger] comps.take(k),
        ) && added[comps.take(k)] is Dir by {
            if k == 1 {
                assert(comps.take(1) =~= seq![name]);
            } else {
                assert(comps.take(k).drop_first() =~= rest.take(k - 1));
                assert(below.contains_key(rest.take(k - 1)));
            }
        }
        assert forall|p: Components| #[trigger]
            added.contains_key(p) implies view.contains_key(p) || (1 <= p.len() <= comps.len()
            && p == comps.take(p.len() as int)) by {
            if p.len() >= 2 && p[0] == name {
                let q = p.drop_first();
                assert(below.contains_key(q));
                assert(seq![name] + q =~= p);
                if !sub.contains_key(q) {
                    assert(q == rest.take(q.len() as int));
                    assert(p =~= comps.take(p.len() as int));
                }
            }
        }
    }
}

/// A successful addition keeps every path on the way to a recorded path a
/// recorded directory.
pub proof fn lemma_add_prefix_closed<P>(
    view: Map<Components, Info<P>>,
    comps: Components,
    path_type: PathType,
    props: P,
)
    requires
        prefix_closed(view),
        spec_add(view, comps, path_type, props) is Ok,
    ensures
        prefix_closed(spec_add(view, comps, path_type, props)->Ok_0),
{
    let added = spec_add(view, comps, path_type, props)->Ok_0;
    lemma_add_records_path(view, comps, path_type, props);
    lemma_add_shape(view, comps, path_type, props);
    assert forall|p: Components|
        #![trigger added.contains_key(p)]
        added.contains_key(p) && p.len() >= 2 implies added.contains_key(p.drop_last())
        && added[p.drop_last()] is Dir by {
        let parent = p.drop_last();
        if view.contains_key(p) {
            assert(view.contains_key(parent));
        } else {
            assert(p == comps.take(p.len() as int));
            assert(parent =~= comps.take(p.len() - 1));
        }
    }
}

/// A successful addition records the path with its declared type, records
/// exactly what was declared where nothing was recorded before, and keeps
/// every other recorded path as it was.
pub proof fn law_add_records_path<P>(tree: Tree<P>, path: Seq<char>, path_type: PathType, props: P)
    requires
        spec_path_components(path) is Ok,
        spec_add(tree@, spec_path_components(path)->Ok_0, path_type, props) is Ok,
    ensures
        ({
            let comps = spec_path_components(path)->Ok_0;
            let added = spec_add(tree@, comps, path_type, props)->Ok_0;
            &&& added.contains_key(comps)
            &&& info_path_type(added[comps]) == path_type
            &&& !tree@.contains_key(comps) ==> added[comps] == new_info(path_type, props)
            &&& forall|p: Components| #[trigger]
                tree@.contains_key(p) && p != comps ==> added.contains_key(p) && added[p]
                    == tree@[p]
        }),
{
    law_tree_prefix_closed(tree);
    lemma_add_records_path(tree@, spec_path_components(path)->Ok_0, path_type, props);
}

/// The statement of `law_declared_path_kept` over views.
pub proof fn lemma_declared_path_kept<P>(
    view: Map<Components, Info<P>>,
    comps: Components,
    path_type: PathType,
    props: P,
)
    requires
        prefix_closed(view),
        comps.len() >= 1,
        view.contains_key(comps),
        info_props(view[comps]) is Some,
    ensures
        spec_add(view, comps, path_type, props) is Err,
        view[comps] is Dir && path_type is Dir ==> spec_add(view, comps, path_type, props) == Err::<
            Map<Components, Info<P>>,
            TreeError<P>,
        >(TreeError::ExistingProps(info_props(view[comps])->Some_0)),
    decreases comps.len(),
{
    let name = comps[0];
    if comps.len() == 1 {
        assert(comps =~= seq![name]);
    } else {
        lemma_prefix_closed_first(view, comps);
        let parent_first = seq![name];
        assert(view[parent_first] is Dir) by {
            lemma_prefix_dir(view, comps, 1);
            assert(comps.take(1) =~= parent_first);
        }
        let sub = sub_view(view, name);
        let rest = comps.drop_first();
        lemma_sub_view_prefix_closed(view, name);
        assert(seq![name] + rest =~= comps);
        assert(sub.contains_key(rest));
        lemma_declared_path_kept(sub, rest, path_type, props);
    }
}

proof fn lemma_prefix_dir<P>(view: Map<Components, Info<P>>, p: Components, k: int)
    requires
        prefix_closed(view),
        view.contains_key(p),
        1 <= k < p.len(),
    ensures
        view.contains_key(p.take(k)),
        view[p.take(k)] is Dir,
    decreases p.len() - k,
{
    let parent = p.drop_last();
    assert(view.contains_key(parent));
    if k == p.len() - 1 {
        assert(parent =~= p.take(k));
    } else {
        lemma_prefix_dir(view, parent, k);
        assert(parent.take(k) =~= p.take(k));
    }
}

/// A path recorded with properties cannot be declared again: the first
/// declaration stays, and a directory declared again reports the
/// properties it already has.
pub proof fn law_declared_path_kept<P>(tree: Tree<P>, path: Seq<char>, path_type: PathType, props: P)
    requires
        spec_path_components(path) is Ok,
        tree@.contains_key(spec_path_components(path)->Ok_0),
        info_props(tree@[spec_path_components(path)->Ok_0]) is Some,
    ensures
        ({
            let comps = spec_path_components(path)->Ok_0;
            &&& spec_add(tree@, comps, path_type, props) is Err
            &&& tree@[comps] is Dir && path_type is Dir ==> spec_add(tree@, comps, path_type, props)
                == Err::<Map<Components, Info<P>>, TreeError<P>>(
                TreeError::ExistingProps(info_props(tree@[comps])->Some_0),
            )
        }),
{
    law_tree_prefix_closed(tree);
    assert(lookup(tree.root.entries@, Seq::<Seq<char>>::empty()) is None);
    lemma_declared_path_kept(tree@, spec_path_components(path)->Ok_0, path_type, props);
}

/// Every directory recorded without properties lies on the way to another
/// recorded path: it has a recorded child.
pub open spec fn intermediates_lead_on<P>(view: Map<Components, Info<P>>) -> bool {
    forall|p: Components|
        #![trigger view.contains_key(p)]
        view.contains_key(p) && view[p] == intermediate_info::<P>() ==> exists|q: Components|
            #[trigger] view.contains_key(q) && q.len() == p.len() + 1 && q.drop_last() == p
}

/// The statement of `law_add_intermediates_lead_on` over views.
pub proof fn lemma_add_intermediates_lead_on<P>(
    view: Map<Components, Info<P>>,
    comps: Components,
    path_type: PathType,
    props: P,
)
    requires
        prefix_closed(view),
        intermediates_lead_on(view),
        spec_add(view, comps, path_type, props) is Ok,
    ensures
        intermediates_lead_on(spec_add(view, comps, path_type, props)->Ok_0),
{
    let added = spec_add(view, comps, path_type, props)->Ok_0;
    lemma_add_records_path(view, comps, path_type, props);
    lemma_add_shape(view, comps, path_type, props);
    lemma_new_info_path_type(path_type, props);
    assert forall|p: Components|
        #![trigger added.contains_key(p)]
        added.contains_key(p) && added[p] == intermediate_info::<P>() implies exists|q: Components|
        #[trigger] added.contains_key(q) && q.len() == p.len() + 1 && q.drop_last() == p by {
        if view.contains_key(p) {
            assert(view[p] == intermediate_info::<P>());
            let q = choose|q: Components|
                #[trigger] view.contains_key(q) && q.len() == p.len() + 1 && q.drop_last() == p;
            assert(added.contains_key(q));
        } else {
            assert(p == comps.take(p.len() as int));
            if p.len() == comps.len() {
                assert(p =~= comps);
                assert(added[comps] == super::new_info(path_type, props));
                assert(false);
            } else {
                let q = comps.take(p.len() + 1int);
                if p.len() + 1 == comps.len() {
                    assert(q =~= comps);
                }
                assert(added.contains_key(q));
                assert(q.drop_last() =~= p);
            }
        }
    }
}

/// Adding a path keeps every directory recorded without properties on the
/// way to another recorded path.
pub proof fn law_add_intermediates_lead_on<P>(
    tree: Tree<P>,
    path: Seq<char>,
    path_type: PathType,
    props: P,
)
    requires
        intermediates_lead_on(tree@),
        spec_path_components(path) is Ok,
        spec_add(tree@, spec_path_components(path)->Ok_0, path_type, props) is Ok,
    ensures
        intermediates_lead_on(spec_add(tree@, spec_path_components(path)->Ok_0, path_type, props)->Ok_0),
{
    law_tree_prefix_closed(tree);
    lemma_add_intermediates_lead_on(tree@, spec_path_components(path)->Ok_0, path_type, props);
}

/// Adding a path removes no recorded path and changes none, but for one
/// case: a directory recorded without properties that is declared again as
/// a directory owning its contents takes the new properties.
pub proof fn law_add_keeps_recorded<P>(tree: Tree<P>, path: Seq<char>, path_type: PathType, props: P)
    requires
        spec_path_components(path) is Ok,
        spec_add(tree@, spec_path_components(path)->Ok_0, path_type, props) is Ok,
    ensures
        ({
            let comps = spec_path_components(path)->Ok_0;
            let added = spec_add(tree@, comps, path_type, props)->Ok_0;
            forall|p: Components| #[trigger]
                tree@.contains_key(p) ==> added.contains_key(p) && (added[p] == tree@[p] || (p
                    == comps && tree@[p] == intermediate_info::<P>() && added[p] == fs::Entry::<
                    super::DirKind<P>,
                    super::File<P>,
                >::Dir(super::DirKind::OwnsContents(props))))
        }),
{
    law_tree_prefix_closed(tree);
    let comps = spec_path_components(path)->Ok_0;
    lemma_add_records_path(tree@, comps, path_type, props);
    lemma_add_shape(tree@, comps, path_type, props);
}

} // verus!
