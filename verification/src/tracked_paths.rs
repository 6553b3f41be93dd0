//! Checking that what enabled modules declare is on disk as declared.
use vstd::prelude::*;

use crate::config::{items_view, spec_config_paths, modules_available, Config, ItemView};
use crate::decl::{FileType, PathType, Props};
use crate::declarative::{owner_enabled, OwnerView};
use crate::fs;
use crate::fs::unix::walker;

verus! {

/// The declared paths of enabled modules, in order.
pub open spec fn spec_enabled_paths(items: Seq<ItemView>) -> Seq<ItemView> {
    items.filter(|it: ItemView| owner_enabled(it.2.owner))
}

/// Whether an owner is a module that the configuration leaves disabled.
pub open spec fn disabled_module(owner: OwnerView) -> bool {
    ||| owner matches OwnerView::System { enabled, .. } && !enabled
    ||| owner matches OwnerView::User { enabled, .. } && !enabled
}

/// Every element kept by a filter is an element of the sequence.
proof fn lemma_filter_subset(items: Seq<ItemView>, pred: spec_fn(ItemView) -> bool)
    ensures
        forall|i: int| 0 <= i < items.filter(pred).len() ==> items.contains(
            #[trigger] items.filter(pred)[i],
        ),
    decreases items.len(),
{
    reveal(Seq::filter);
    if items.len() > 0 {
        let rest = items.drop_last();
        lemma_filter_subset(rest, pred);
        let out = items.filter(pred);
        assert forall|i: int| 0 <= i < out.len() implies items.contains(#[trigger] out[i]) by {
            if i < rest.filter(pred).len() {
                assert(out[i] == rest.filter(pred)[i]);
                let j = choose|j: int| 0 <= j < rest.len() && rest[j] == out[i];
                assert(items[j] == rest[j]);
            } else {
                assert(out[i] == items.last());
                assert(items[items.len() - 1] == items.last());
            }
        }
    }
}

/// The paths checked on disk are exactly those of modules that are not
/// disabled: every one of them is a declared path whose owner is no
/// disabled module, and every declared path whose owner is no disabled
/// module is among them.
pub proof fn law_enabled_paths_checked(items: Seq<ItemView>)
    ensures
        forall|i: int|
            0 <= i < spec_enabled_paths(items).len() ==> !disabled_module(
                (#[trigger] spec_enabled_paths(items)[i]).2.owner,
            ) && items.contains(spec_enabled_paths(items)[i]),
        forall|i: int|
            0 <= i < items.len() && !disabled_module(items[i].2.owner) ==> spec_enabled_paths(
                items,
            ).contains(#[trigger] items[i]),
{
    let pred = |it: ItemView| owner_enabled(it.2.owner);
    lemma_filter_subset(items, pred);
    assert forall|i: int| 0 <= i < spec_enabled_paths(items).len() implies !disabled_module(
        (#[trigger] spec_enabled_paths(items)[i]).2.owner,
    ) by {
        items.lemma_filter_pred(pred, i);
    }
    assert forall|i: int| 0 <= i < items.len() && !disabled_module(items[i].2.owner) implies spec_enabled_paths(
        items,
    ).contains(#[trigger] items[i]) by {
        items.lemma_filter_contains(pred, i);
    }
}

/// Whether the configuration can declare a path of this type.
pub open spec fn checkable(path_type: PathType) -> bool {
    path_type is Dir || path_type == PathType::File(FileType::Regular) || path_type
        == PathType::File(FileType::Symlink)
}

/// What is wrong with a path declared with `path_type` where an entry of
/// type `found` lies: nothing where the types agree.
pub open spec fn spec_tracked_problem(path_type: PathType, found: walker::PathType) -> Option<
    Seq<char>,
> {
    match path_type {
        fs::Entry::Dir(_) => if found is Dir {
            None
        } else {
            Some("not a dir"@)
        },
        _ => if path_type == PathType::File(FileType::Regular) {
            if found == walker::PathType::File(crate::fs::unix::FileType::Regular) {
                None
            } else {
                Some("not a file"@)
            }
        } else if found == walker::PathType::File(crate::fs::unix::FileType::Symlink) {
            None
        } else {
            Some("not a symlink"@)
        },
    }
}

/// What is wrong with a path declared with `path_type` where an entry of
/// type `found` lies (see `spec_tracked_problem`).
pub fn tracked_problem(path_type: PathType, found: walker::PathType) -> (res: Option<&'static str>)
    requires
        checkable(path_type),
    ensures
        match spec_tracked_problem(path_type, found) {
            Some(message) => res matches Some(m) && m@ == message,
            None => res is None,
        },
{
    match path_type {
        fs::Entry::Dir(_) => match found {
            fs::Entry::Dir(()) => None,
            _ => Some("not a dir"),
        },
        fs::Entry::File(FileType::Regular) => match found {
            fs::Entry::File(crate::fs::unix::FileType::Regular) => None,
            _ => Some("not a file"),
        },
        fs::Entry::File(_) => match found {
            fs::Entry::File(crate::fs::unix::FileType::Symlink) => None,
            _ => Some("not a symlink"),
        },
    }
}

/// Every path the configuration declares has a type that can be checked.
pub proof fn law_config_paths_checkable(config: Config)
    ensures
        forall|i: int|
            0 <= i < spec_config_paths(config).len() ==> checkable(
                #[trigger] spec_config_paths(config)[i].1,
            ),
{
    crate::config::lemma_config_paths_types(config);
}

impl Config {
    /// The declared paths of enabled modules (see `spec_enabled_paths`).
    pub fn tracked_paths<'a>(&'a self) -> (res: Vec<(String, PathType, Props<'a>)>)
        requires
            modules_available(*self),
            self.wf(),
        ensures
            items_view(res@) == spec_enabled_paths(spec_config_paths(*self)),
            forall|i: int| 0 <= i < res@.len() ==> !disabled_module(#[trigger] res@[i].2@.owner),
    {
        let all = self.paths();
        let ghost all_view = items_view(all@);
        let mut out: Vec<(String, PathType, Props<'a>)> = Vec::new();
        let mut i: usize = 0;
        assert(all_view.take(0) =~= Seq::<ItemView>::empty());
        assert(items_view(out@) =~= Seq::<ItemView>::empty());
        while i < all.len()
            invariant
                0 <= i <= all@.len(),
                all_view == items_view(all@),
                items_view(out@) == spec_enabled_paths(all_view.take(i as int)),
            decreases all@.len() - i,
        {
            let (path, path_type, props) = &all[i];
            let ghost before = out@;
            proof {
                reveal_with_fuel(Seq::<ItemView>::filter, 1);
                assert(all_view.take(i + 1).drop_last() =~= all_view.take(i as int));
                assert(all_view[i as int] == (path@, *path_type, props@));
            }
            if props.owner.enabled() {
                out.push((path.clone(), *path_type, *props));
                assert(items_view(out@) =~= items_view(before).push((path@, *path_type, props@)));
            }
            i += 1;
        }
        assert(all_view.take(i as int) =~= all_view);
        proof {
            law_enabled_paths_checked(all_view);
            assert forall|k: int| 0 <= k < out@.len() implies !disabled_module(
                #[trigger] out@[k].2@.owner,
            ) by {
                assert(items_view(out@)[k] == (out@[k].0@, out@[k].1, out@[k].2@));
            }
        }
        out
    }
}

} // verus!
