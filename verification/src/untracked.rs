//! Finding what lies on disk without being tracked by an enabled module.
use vstd::prelude::*;

use crate::decl::{self, Owner, Props};
use crate::text::{chars_lt, str_eq, str_lt};
use crate::declarative::{owner_enabled, owner_lt, OwnerView, lemma_owner_lt_irreflexive,
    lemma_owner_lt_total, lemma_owner_lt_transitive};
use crate::fs;
use crate::fs::unix::walker;
use crate::fs::unix::walker::spec_from_declarative_path_type;
use crate::presentation::{spec_path_type_char, UntrackedPath};

verus! {

/// A path whose entry on disk is not of the declared type.
pub struct MismatchingPath<'a> {
    pub maybe_owner: Option<Owner<'a>>,
    pub path: String,
    pub expected: walker::PathType,
    pub found: walker::PathType,
}

/// A reported path: its characters and the type found there.
pub type ReportedView = (Seq<char>, walker::PathType);

/// A mismatch: the owner, the path, and the types expected and found.
pub type MismatchView = (Option<OwnerView>, Seq<char>, walker::PathType, walker::PathType);

/// What an untracked-path search has found so far.
pub struct UntrackedView {
    /// Paths no module declares, in the order met.
    pub untracked: Seq<ReportedView>,
    /// Paths of modules that are disabled, grouped by owner in the order of
    /// owners, each group in the order met.
    pub groups: Seq<(OwnerView, Seq<ReportedView>)>,
    /// Entries of another type than declared, in the order met.
    pub mismatching: Seq<MismatchView>,
}

/// The view of a reported path.
pub open spec fn reported_view(u: UntrackedPath<String>) -> ReportedView {
    (u.path@, u.path_type)
}

/// The view of a mismatch.
pub open spec fn mismatch_view(m: MismatchingPath) -> MismatchView {
    (
        match m.maybe_owner {
            Some(owner) => Some(owner@),
            None => None,
        },
        m.path@,
        m.expected,
        m.found,
    )
}

/// Groups are ordered strictly by owner.
pub open spec fn groups_sorted(groups: Seq<(OwnerView, Seq<ReportedView>)>) -> bool {
    forall|i: int, j: int|
        0 <= i < j < groups.len() ==> owner_lt(#[trigger] groups[i].0, #[trigger] groups[j].0)
}

/// The position of the first group whose owner does not come before
/// `owner`.
pub open spec fn insertion_point(groups: Seq<(OwnerView, Seq<ReportedView>)>, owner: OwnerView) -> int
    decreases groups.len(),
{
    if groups.len() == 0 {
        0
    } else if !owner_lt(groups[0].0, owner) {
        0
    } else {
        1 + insertion_point(groups.drop_first(), owner)
    }
}

/// The groups with `item` added to the group of `owner`, which is created
/// in its place where there is none.
pub open spec fn group_insert(
    groups: Seq<(OwnerView, Seq<ReportedView>)>,
    owner: OwnerView,
    item: ReportedView,
) -> Seq<(OwnerView, Seq<ReportedView>)> {
    let i = insertion_point(groups, owner);
    if i < groups.len() && groups[i].0 == owner {
        groups.update(i, (owner, groups[i].1.push(item)))
    } else {
        groups.insert(i, (owner, seq![item]))
    }
}

/// Reporting a path: with properties, in the group of its owner; without,
/// among the untracked paths.
pub open spec fn spec_report_untracked(
    v: UntrackedView,
    path: Seq<char>,
    maybe_owner: Option<OwnerView>,
    path_type: walker::PathType,
) -> UntrackedView {
    match maybe_owner {
        Some(owner) => UntrackedView {
            groups: group_insert(v.groups, owner, (path, path_type)),
            ..v
        },
        None => UntrackedView { untracked: v.untracked.push((path, path_type)), ..v },
    }
}

/// Reporting a mismatch.
pub open spec fn spec_report_mismatch(
    v: UntrackedView,
    path: Seq<char>,
    maybe_owner: Option<OwnerView>,
    expected: walker::PathType,
    found: walker::PathType,
) -> UntrackedView {
    UntrackedView { mismatching: v.mismatching.push((maybe_owner, path, expected, found)), ..v }
}

/// The owner of optional properties.
pub open spec fn props_owner(maybe_props: Option<Props>) -> Option<OwnerView> {
    match maybe_props {
        Some(props) => Some(props.owner@),
        None => None,
    }
}

/// Whether the entry is declared with another type than `path_type`.
pub open spec fn declared_otherwise(declared: decl::Entry<Props>, path_type: walker::PathType) -> bool {
    declared.maybe_path_type matches Some(t) && spec_from_declarative_path_type(t) != path_type
}

/// Whether the entry's properties belong to a disabled owner.
pub open spec fn owner_disabled(declared: decl::Entry<Props>) -> bool {
    declared.maybe_props matches Some(props) && !owner_enabled(props.owner@)
}

/// Checking an entry found at `path` with type `path_type`: an entry of
/// another type than declared is a mismatch; an undeclared entry, or one of
/// a disabled module, is reported. Only the rest is looked into further
/// (the second element is whether it is).
pub open spec fn spec_check_path(
    v: UntrackedView,
    path: Seq<char>,
    path_type: walker::PathType,
    declared: decl::Entry<Props>,
) -> (UntrackedView, bool) {
    let owner = props_owner(declared.maybe_props);
    if declared_otherwise(declared, path_type) {
        let expected = spec_from_declarative_path_type(declared.maybe_path_type->Some_0);
        (spec_report_mismatch(v, path, owner, expected, path_type), false)
    } else if declared.maybe_path_type is None || owner_disabled(declared) {
        (spec_report_untracked(v, path, owner, path_type), false)
    } else {
        (v, true)
    }
}

/// Visiting a directory: what `spec_check_path` reports, and the walk
/// descends exactly into a directory declared as one that has no
/// properties, or belongs to an enabled module and does not own its
/// contents (whose contents are otherwise all tracked).
pub open spec fn spec_visit_dir(v: UntrackedView, path: Seq<char>, declared: decl::Entry<Props>) -> (
    UntrackedView,
    bool,
) {
    let (v1, checked) = spec_check_path(v, path, fs::Entry::Dir(()), declared);
    (
        v1,
        checked && (declared.maybe_path_type matches Some(fs::Entry::Dir(d)) && (
        declared.maybe_props is None || !d.owns_contents)),
    )
}

/// Visiting a non-directory entry: an entry of another type than declared
/// is a mismatch; one without properties, or of a disabled module, is
/// reported.
pub open spec fn spec_visit_file(
    v: UntrackedView,
    path: Seq<char>,
    file_type: walker::FileType,
    declared: decl::Entry<Props>,
) -> UntrackedView {
    let found = fs::Entry::File(file_type);
    let owner = props_owner(declared.maybe_props);
    let v1 = match declared.maybe_path_type {
        Some(declared_path_type) if spec_from_declarative_path_type(declared_path_type)
            != found => spec_report_mismatch(
            v,
            path,
            owner,
            spec_from_declarative_path_type(declared_path_type),
            found,
        ),
        _ => v,
    };
    match declared.maybe_props {
        Some(props) if owner_enabled(props.owner@) => v1,
        _ => spec_report_untracked(v1, path, owner, found),
    }
}

/// An entry of an enabled module, of the type it is declared with, is not
/// reported: neither as untracked, nor as a mismatch.
pub proof fn law_tracked_file_not_reported(
    v: UntrackedView,
    path: Seq<char>,
    file_type: walker::FileType,
    declared: decl::Entry<Props>,
)
    requires
        declared.maybe_props matches Some(props) && owner_enabled(props.owner@),
        declared.maybe_path_type matches Some(t) && spec_from_declarative_path_type(t)
            == fs::Entry::<(), walker::FileType>::File(file_type),
    ensures
        spec_visit_file(v, path, file_type, declared) == v,
{
}

/// A directory declared as one that carries no properties, such as one
/// that only leads to declared paths, is looked into: visiting it reports
/// nothing, and the walk descends into it, so what lies below it
/// undeclared is found.
pub proof fn law_unpropertied_dir_descended(
    v: UntrackedView,
    path: Seq<char>,
    dir_props: decl::DirProps,
)
    ensures
        spec_visit_dir(
            v,
            path,
            decl::Entry {
                maybe_path_type: Some(fs::Entry::Dir(dir_props)),
                maybe_props: None,
            },
        ) == (v, true),
{
}

/// The position where `group_insert` puts or finds the group of `owner`.
proof fn lemma_insertion_point_bounds(groups: Seq<(OwnerView, Seq<ReportedView>)>, owner: OwnerView)
    ensures
        0 <= insertion_point(groups, owner) <= groups.len(),
    decreases groups.len(),
{
    if groups.len() > 0 && owner_lt(groups[0].0, owner) {
        lemma_insertion_point_bounds(groups.drop_first(), owner);
    }
}

/// A non-directory entry that no module declares, and that no directory
/// hands properties to, is reported as untracked, after those found
/// before.
pub proof fn law_undeclared_file_untracked(
    v: UntrackedView,
    path: Seq<char>,
    file_type: walker::FileType,
)
    ensures
        spec_visit_file(
            v,
            path,
            file_type,
            decl::Entry { maybe_path_type: None, maybe_props: None },
        ) == (UntrackedView {
            untracked: v.untracked.push((path, fs::Entry::File(file_type))),
            ..v
        }),
{
}

/// A path of a disabled module is reported in the group of its owner, after
/// the paths found there before; the groups stay ordered by owner, one for
/// each owner.
pub proof fn law_disabled_path_grouped(
    v: UntrackedView,
    path: Seq<char>,
    owner: OwnerView,
    path_type: walker::PathType,
)
    requires
        groups_sorted(v.groups),
        !owner_enabled(owner),
    ensures
        ({
            let after = spec_report_untracked(v, path, Some(owner), path_type).groups;
            &&& groups_sorted(after)
            &&& exists|i: int|
                0 <= i < after.len() && (#[trigger] after[i]).0 == owner && after[i].1.last() == (
                    path,
                    path_type,
                ) && after[i].1.drop_last() == (if i < v.groups.len() && v.groups[i].0 == owner {
                    v.groups[i].1
                } else {
                    Seq::<ReportedView>::empty()
                })
        }),
{
    let g = v.groups;
    let item = (path, path_type);
    let i = insertion_point(g, owner);
    lemma_insertion_point_bounds(g, owner);
    lemma_group_insert_sorted(g, owner, item);
    let after = group_insert(g, owner, item);
    if i < g.len() && g[i].0 == owner {
        assert(after[i].1.drop_last() =~= g[i].1);
    } else {
        assert(after[i] == (owner, seq![item]));
        assert(after[i].1.drop_last() =~= Seq::<ReportedView>::empty());
    }
    assert(after[i].0 == owner);
}

/// Everything before the insertion point comes before `owner`, and nothing
/// from there on does.
proof fn lemma_insertion_point_order(groups: Seq<(OwnerView, Seq<ReportedView>)>, owner: OwnerView)
    requires
        groups_sorted(groups),
    ensures
        forall|j: int|
            0 <= j < insertion_point(groups, owner) ==> owner_lt(#[trigger] groups[j].0, owner),
        insertion_point(groups, owner) < groups.len() ==> !owner_lt(
            groups[insertion_point(groups, owner)].0,
            owner,
        ),
    decreases groups.len(),
{
    lemma_insertion_point_bounds(groups, owner);
    if groups.len() > 0 && owner_lt(groups[0].0, owner) {
        let rest = groups.drop_first();
        assert forall|a: int, b: int| 0 <= a < b < rest.len() implies owner_lt(
            #[trigger] rest[a].0,
            #[trigger] rest[b].0,
        ) by {
            assert(rest[a] == groups[a + 1]);
            assert(rest[b] == groups[b + 1]);
        }
        lemma_insertion_point_order(rest, owner);
        let k = insertion_point(rest, owner);
        lemma_insertion_point_bounds(rest, owner);
        if k < rest.len() {
            assert(groups[1 + k] == rest[k]);
        }
        assert forall|j: int| 0 <= j < insertion_point(groups, owner) implies owner_lt(
            #[trigger] groups[j].0,
            owner,
        ) by {
            if j > 0 {
                assert(groups[j] == rest[j - 1]);
            }
        }
    }
}

/// Adding to the group of `owner` keeps the groups ordered by owner.
proof fn lemma_group_insert_sorted(
    groups: Seq<(OwnerView, Seq<ReportedView>)>,
    owner: OwnerView,
    item: ReportedView,
)
    requires
        groups_sorted(groups),
    ensures
        groups_sorted(group_insert(groups, owner, item)),
{
    let i = insertion_point(groups, owner);
    lemma_insertion_point_bounds(groups, owner);
    lemma_insertion_point_order(groups, owner);
    let ng = group_insert(groups, owner, item);
    if i < groups.len() && groups[i].0 == owner {
        assert forall|a: int, b: int| 0 <= a < b < ng.len() implies owner_lt(
            #[trigger] ng[a].0,
            #[trigger] ng[b].0,
        ) by {
            assert(ng[a].0 == groups[a].0);
            assert(ng[b].0 == groups[b].0);
        }
    } else {
        if i < groups.len() {
            lemma_owner_lt_total(groups[i].0, owner);
        }
        assert forall|a: int, b: int| 0 <= a < b < ng.len() implies owner_lt(
            #[trigger] ng[a].0,
            #[trigger] ng[b].0,
        ) by {
            if a < i && b < i {
                assert(ng[a] == groups[a] && ng[b] == groups[b]);
            } else if a < i && b == i {
                assert(ng[a] == groups[a]);
            } else if a < i {
                assert(ng[a] == groups[a] && ng[b] == groups[b - 1]);
                assert(owner_lt(groups[a].0, owner));
                lemma_owner_lt_transitive(groups[a].0, owner, groups[i].0);
                if b - 1 > i {
                    lemma_owner_lt_transitive(groups[a].0, groups[i].0, groups[b - 1].0);
                }
            } else if a == i {
                assert(ng[b] == groups[b - 1]);
                if b - 1 > i {
                    lemma_owner_lt_transitive(owner, groups[i].0, groups[b - 1].0);
                }
            } else {
                assert(ng[a] == groups[a - 1] && ng[b] == groups[b - 1]);
            }
        }
    }
}

/// Collects what lies on disk untracked: paths no module declares, paths of
/// disabled modules by owner, and entries of another type than declared.
pub struct UntrackedVisitor<'a> {
    untracked: Vec<UntrackedPath<String>>,
    tracked_by_disabled_module: Vec<(Owner<'a>, Vec<UntrackedPath<String>>)>,
    mismatching: Vec<MismatchingPath<'a>>,
}

/// The view of the groups of paths of disabled modules.
pub open spec fn groups_view<'a>(groups: Seq<(Owner<'a>, Vec<UntrackedPath<String>>)>) -> Seq<
    (OwnerView, Seq<ReportedView>),
> {
    groups.map_values(
        |g: (Owner<'a>, Vec<UntrackedPath<String>>)| (g.0@, g.1@.map_values(|u| reported_view(u))),
    )
}

impl<'a> View for UntrackedVisitor<'a> {
    type V = UntrackedView;

    closed spec fn view(&self) -> UntrackedView {
        UntrackedView {
            untracked: self.untracked@.map_values(|u| reported_view(u)),
            groups: groups_view(self.tracked_by_disabled_module@),
            mismatching: self.mismatching@.map_values(|m| mismatch_view(m)),
        }
    }
}

impl<'a> UntrackedVisitor<'a> {
    #[verifier::type_invariant]
    closed spec fn inv(self) -> bool {
        groups_sorted(groups_view(self.tracked_by_disabled_module@))
    }

    /// Nothing found yet.
    pub fn new() -> (res: Self)
        ensures
            res@.untracked.len() == 0,
            res@.groups.len() == 0,
            res@.mismatching.len() == 0,
    {
        let res = UntrackedVisitor {
            untracked: Vec::new(),
            tracked_by_disabled_module: Vec::new(),
            mismatching: Vec::new(),
        };
        proof {
            assert(groups_view(res.tracked_by_disabled_module@) =~= Seq::empty());
        }
        res
    }

    /// Paths no module declares.
    pub fn untracked(&self) -> (res: &Vec<UntrackedPath<String>>)
        ensures
            res@.map_values(|u| reported_view(u)) == self@.untracked,
    {
        &self.untracked
    }

    /// Paths of disabled modules, grouped by owner.
    pub fn tracked_by_disabled_module(&self) -> (res: &Vec<(Owner<'a>, Vec<UntrackedPath<String>>)>)
        ensures
            groups_view(res@) == self@.groups,
            groups_sorted(self@.groups),
    {
        proof {
            use_type_invariant(self);
        }
        &self.tracked_by_disabled_module
    }

    /// Hands over the mismatches found so far, which are then forgotten.
    pub fn take_mismatching(&mut self) -> (res: Vec<MismatchingPath<'a>>)
        ensures
            res@.map_values(|m| mismatch_view(m)) == old(self)@.mismatching,
            final(self)@ == (UntrackedView { mismatching: seq![], ..old(self)@ }),
    {
        proof {
            use_type_invariant(&*self);
        }
        let mut taken = Vec::new();
        std::mem::swap(&mut taken, &mut self.mismatching);
        proof {
            assert(self@.mismatching =~= Seq::<MismatchView>::empty());
        }
        taken
    }

    /// Reports `path` (see `spec_report_untracked`).
    fn report_untracked_path(
        &mut self,
        path: &str,
        maybe_props: Option<Props<'a>>,
        path_type: walker::PathType,
    )
        ensures
            final(self)@ == spec_report_untracked(old(self)@, path@, props_owner(maybe_props), path_type),
    {
        proof {
            use_type_invariant(&*self);
        }
        let item = UntrackedPath { path: path.to_owned(), path_type };
        match maybe_props {
            Some(props) => {
                let mut groups = Vec::new();
                std::mem::swap(&mut groups, &mut self.tracked_by_disabled_module);
                Self::insert_into_group(&mut groups, props.owner, item);
                self.tracked_by_disabled_module = groups;
            },
            None => {
                let mut untracked = Vec::new();
                std::mem::swap(&mut untracked, &mut self.untracked);
                let ghost before = untracked@;
                untracked.push(item);
                proof {
                    assert(untracked@.map_values(|u| reported_view(u)) =~= before.map_values(
                        |u| reported_view(u),
                    ).push(reported_view(item)));
                }
                self.untracked = untracked;
            },
        }
    }

    /// Adds `item` to the group of `owner` (see `group_insert`).
    fn insert_into_group(
        groups: &mut Vec<(Owner<'a>, Vec<UntrackedPath<String>>)>,
        owner: Owner<'a>,
        item: UntrackedPath<String>,
    )
        requires
            groups_sorted(groups_view(old(groups)@)),
        ensures
            groups_sorted(groups_view(final(groups)@)),
            groups_view(final(groups)@) == group_insert(
                groups_view(old(groups)@),
                owner@,
                reported_view(item),
            ),
    {
        let ghost g = groups_view(groups@);
        let mut i: usize = 0;
        assert(g.skip(0) =~= g);
        while i < groups.len() && groups[i].0.precedes(&owner)
            invariant
                g == groups_view(groups@),
                groups_sorted(g),
                0 <= i <= groups@.len(),
                forall|j: int| 0 <= j < i ==> owner_lt(#[trigger] g[j].0, owner@),
                insertion_point(g, owner@) == i + insertion_point(g.skip(i as int), owner@),
            decreases groups@.len() - i,
        {
            assert(g.skip(i as int).drop_first() =~= g.skip(i + 1));
            assert(g.skip(i as int)[0] == g[i as int]);
            i += 1;
        }
        proof {
            if i < g.len() {
                assert(g.skip(i as int)[0] == g[i as int]);
            }
            assert(insertion_point(g, owner@) == i);
        }
        if i < groups.len() && groups[i].0.same(&owner) {
            let (group_owner, mut paths) = groups.remove(i);
            let ghost old_paths = paths@;
            paths.push(item);
            groups.insert(i, (group_owner, paths));
            proof {
                assert(paths@.map_values(|u| reported_view(u)) =~= old_paths.map_values(
                    |u| reported_view(u),
                ).push(reported_view(item)));
                assert(groups_view(groups@) =~= g.update(
                    i as int,
                    (owner@, g[i as int].1.push(reported_view(item))),
                ));
                assert forall|a: int, b: int|
                    0 <= a < b < groups_view(groups@).len() implies owner_lt(
                    #[trigger] groups_view(groups@)[a].0,
                    #[trigger] groups_view(groups@)[b].0,
                ) by {
                    assert(groups_view(groups@)[a].0 == g[a].0);
                    assert(groups_view(groups@)[b].0 == g[b].0);
                }
            }
        } else {
            let ghost new_group = (owner@, seq![reported_view(item)]);
            let mut paths = Vec::new();
            paths.push(item);
            groups.insert(i, (owner, paths));
            proof {
                assert(paths@.map_values(|u| reported_view(u)) =~= seq![reported_view(item)]);
                let ng = groups_view(groups@);
                assert(ng =~= g.insert(i as int, new_group));
                if i < g.len() {
                    lemma_owner_lt_total(g[i as int].0, owner@);
                }
                assert forall|a: int, b: int| 0 <= a < b < ng.len() implies owner_lt(
                    #[trigger] ng[a].0,
                    #[trigger] ng[b].0,
                ) by {
                    if a < i && b < i {
                    } else if a < i && b == i {
                    } else if a < i {
                        assert(owner_lt(g[a].0, owner@));
                        assert(owner_lt(owner@, g[i as int].0));
                        lemma_owner_lt_transitive(g[a].0, owner@, g[i as int].0);
                        if b - 1 > i {
                            lemma_owner_lt_transitive(g[a].0, g[i as int].0, g[b - 1].0);
                        }
                    } else if a == i {
                        assert(owner_lt(owner@, g[i as int].0));
                        if b - 1 > i {
                            lemma_owner_lt_transitive(owner@, g[i as int].0, g[b - 1].0);
                        }
                    } else {
                        assert(ng[a] == g[a - 1]);
                        assert(ng[b] == g[b - 1]);
                    }
                }
            }
        }
    }

    /// Records a mismatch (see `spec_report_mismatch`).
    fn report_mismatching_path(
        &mut self,
        path: &str,
        maybe_props: Option<Props<'a>>,
        expected: walker::PathType,
        found: walker::PathType,
    )
        ensures
            final(self)@ == spec_report_mismatch(
                old(self)@,
                path@,
                props_owner(maybe_props),
                expected,
                found,
            ),
    {
        let maybe_owner = match maybe_props {
            Some(props) => Some(props.owner),
            None => None,
        };
        let mismatch = MismatchingPath { maybe_owner, path: path.to_owned(), expected, found };
        proof {
            use_type_invariant(&*self);
        }
        let mut mismatching = Vec::new();
        std::mem::swap(&mut mismatching, &mut self.mismatching);
        let ghost before = mismatching@;
        mismatching.push(mismatch);
        proof {
            assert(mismatching@.map_values(|m| mismatch_view(m)) =~= before.map_values(
                |m| mismatch_view(m),
            ).push(mismatch_view(mismatch)));
        }
        self.mismatching = mismatching;
    }

    /// Checks an entry (see `spec_check_path`); `Continue` where it is to
    /// be looked into further.
    pub fn check_path(
        &mut self,
        path: &str,
        path_type: walker::PathType,
        declared: decl::Entry<Props<'a>>,
    ) -> (res: core::ops::ControlFlow<(), ()>)
        ensures
            (final(self)@, res is Continue) == spec_check_path(old(self)@, path@, path_type, declared),
    {
        if let Some(declared_path_type) = declared.maybe_path_type {
            let expected_path_type = walker::PathType::from_declarative_path_type(
                declared_path_type,
            );

            if !expected_path_type.same_as(&path_type) {
                self.report_mismatching_path(
                    path,
                    declared.maybe_props,
                    expected_path_type,
                    path_type,
                );

                return core::ops::ControlFlow::Break(());
            }
        }
        if declared.maybe_path_type.is_none() {
            self.report_untracked_path(path, declared.maybe_props, path_type);

            return core::ops::ControlFlow::Break(());
        }
        let disabled = match declared.maybe_props {
            Some(props) => !props.owner.enabled(),
            None => false,
        };
        if disabled {
            self.report_untracked_path(path, declared.maybe_props, path_type);

            return core::ops::ControlFlow::Break(());
        }
        core::ops::ControlFlow::Continue(())
    }

    /// Visits a directory (see `spec_visit_dir`); `Continue` where the walk
    /// is to descend into it.
    pub fn visit_directory(&mut self, path: &str, declared: decl::Entry<Props<'a>>) -> (res:
        core::ops::ControlFlow<(), ()>)
        ensures
            (final(self)@, res is Continue) == spec_visit_dir(old(self)@, path@, declared),
            declared.maybe_path_type matches Some(fs::Entry::Dir(_)) && declared.maybe_props is None
                ==> res is Continue && final(self)@ == old(self)@,
    {
        let dir = fs::Entry::Dir(());
        if let core::ops::ControlFlow::Break(()) = self.check_path(path, dir, declared) {
            return core::ops::ControlFlow::Break(());
        }
        match declared.maybe_path_type {
            Some(declared_path_type) => match declared_path_type {
                fs::Entry::Dir(d) => match declared.maybe_props {
                    Some(props) => {
                        // If not enabled, then it's untracked
                        if !props.owner.enabled() {
                            self.report_untracked_path(path, declared.maybe_props, dir);

                            core::ops::ControlFlow::Break(())
                        } else if !d.owns_contents {
                            // Recurse to discover untracked files
                            core::ops::ControlFlow::Continue(())
                        } else {
                            // Owns everything, everything is tracked
                            core::ops::ControlFlow::Break(())
                        }
                    },
                    None => core::ops::ControlFlow::Continue(()),
                },
                fs::Entry::File(_) => {
                    self.report_mismatching_path(
                        path,
                        declared.maybe_props,
                        walker::PathType::from_declarative_path_type(declared_path_type),
                        dir,
                    );

                    core::ops::ControlFlow::Break(())
                },
            },
            None => {
                self.report_untracked_path(path, None, dir);
                core::ops::ControlFlow::Break(())
            },
        }
    }

    /// Visits a non-directory entry (see `spec_visit_file`).
    pub fn visit_file_entry(
        &mut self,
        path: &str,
        file_type: walker::FileType,
        declared: decl::Entry<Props<'a>>,
    )
        ensures
            final(self)@ == spec_visit_file(old(self)@, path@, file_type, declared),
    {
        let path_type = fs::Entry::File(file_type);
        if let Some(declared_path_type) = declared.maybe_path_type {
            let expected_path_type = walker::PathType::from_declarative_path_type(
                declared_path_type,
            );

            if !expected_path_type.same_as(&path_type) {
                self.report_mismatching_path(
                    path,
                    declared.maybe_props,
                    expected_path_type,
                    path_type,
                );
            }
        }
        let report = match declared.maybe_props {
            Some(props) => !props.owner.enabled(),
            None => true,
        };
        if report {
            self.report_untracked_path(path, declared.maybe_props, path_type);
        }
    }
}

impl<'a> walker::Visitor<Props<'a>> for UntrackedVisitor<'a> {
    fn visit_dir(
        &mut self,
        path: &str,
        declared: decl::Entry<Props<'a>>,
        _has_declared_children: bool,
    ) -> (res: core::ops::ControlFlow<(), ()>)
        ensures
            (final(self)@, res is Continue) == spec_visit_dir(old(self)@, path@, declared),
    {
        self.visit_directory(path, declared)
    }

    fn visit_file(
        &mut self,
        path: &str,
        file_type: walker::FileType,
        declared: decl::Entry<Props<'a>>,
        _len: u64,
    )
        ensures
            final(self)@ == spec_visit_file(old(self)@, path@, file_type, declared),
    {
        self.visit_file_entry(path, file_type, declared)
    }
}

/// The modules to enable so that the paths of disabled modules are
/// tracked: system modules by name, and user modules by user.
pub struct SuggestedConfig<'a> {
    pub system_modules: Vec<&'a str>,
    pub user_modules: Vec<(&'a str, Vec<&'a str>)>,
}

/// Why no configuration can be suggested: a group belongs to an ad hoc
/// owner, or to an enabled module.
#[derive(Debug)]
pub enum SuggestError {
    AdhocOwner,
    EnabledModule,
}

/// The user modules by user: each user with its module names in order.
pub type UserModulesView = Seq<(Seq<char>, Seq<Seq<char>>)>;

/// The position of the first user that does not come before `user`.
pub open spec fn user_insertion_point(users: UserModulesView, user: Seq<char>) -> int
    decreases users.len(),
{
    if users.len() == 0 {
        0
    } else if !chars_lt(users[0].0, user) {
        0
    } else {
        1 + user_insertion_point(users.drop_first(), user)
    }
}

/// The user modules with `name` added to those of `user`, who is added in
/// order where absent.
pub open spec fn user_insert(users: UserModulesView, user: Seq<char>, name: Seq<char>) -> UserModulesView {
    let i = user_insertion_point(users, user);
    if i < users.len() && users[i].0 == user {
        users.update(i, (user, users[i].1.push(name)))
    } else {
        users.insert(i, (user, seq![name]))
    }
}

/// Whether a group can be suggested: it belongs to a disabled module.
pub open spec fn suggestible(owner: OwnerView) -> bool {
    match owner {
        OwnerView::System { enabled, .. } => !enabled,
        OwnerView::User { enabled, .. } => !enabled,
        _ => false,
    }
}

/// The suggestion for the owners of `groups` in order: system module names
/// in order, and module names by user.
pub open spec fn spec_suggestion(groups: Seq<(OwnerView, Seq<ReportedView>)>) -> (
    Seq<Seq<char>>,
    UserModulesView,
)
    decreases groups.len(),
{
    if groups.len() == 0 {
        (seq![], seq![])
    } else {
        let (system, users) = spec_suggestion(groups.drop_last());
        match groups.last().0 {
            OwnerView::System { name, .. } => (system.push(name), users),
            OwnerView::User { name, user, .. } => (system, user_insert(users, user, name)),
            _ => (system, users),
        }
    }
}

/// The first owner that cannot be suggested decides the error.
pub open spec fn spec_suggest_error(groups: Seq<(OwnerView, Seq<ReportedView>)>) -> Option<SuggestError> {
    if forall|i: int| 0 <= i < groups.len() ==> suggestible(#[trigger] groups[i].0) {
        None
    } else {
        let i = choose|i: int|
            0 <= i < groups.len() && !suggestible(#[trigger] groups[i].0) && forall|j: int|
                0 <= j < i ==> suggestible(#[trigger] groups[j].0);
        match groups[i].0 {
            OwnerView::System { .. } => Some(SuggestError::EnabledModule),
            OwnerView::User { .. } => Some(SuggestError::EnabledModule),
            _ => Some(SuggestError::AdhocOwner),
        }
    }
}

/// The view of the suggestion.
pub open spec fn suggestion_view(s: SuggestedConfig) -> (Seq<Seq<char>>, UserModulesView) {
    (
        s.system_modules@.map_values(|n: &str| n@),
        s.user_modules@.map_values(
            |u: (&str, Vec<&str>)| (u.0@, u.1@.map_values(|n: &str| n@)),
        ),
    )
}

/// Adds `name` to the modules of `user` (see `user_insert`).
fn insert_user_module<'a>(users: &mut Vec<(&'a str, Vec<&'a str>)>, user: &'a str, name: &'a str)
    ensures
        final(users)@.map_values(|u: (&str, Vec<&str>)| (u.0@, u.1@.map_values(|n: &str| n@)))
            == user_insert(
            old(users)@.map_values(|u: (&str, Vec<&str>)| (u.0@, u.1@.map_values(|n: &str| n@))),
            user@,
            name@,
        ),
{
    let ghost g = users@.map_values(|u: (&str, Vec<&str>)| (u.0@, u.1@.map_values(|n: &str| n@)));
    let mut i: usize = 0;
    assert(g.skip(0) =~= g);
    while i < users.len() && str_lt(users[i].0, user)
        invariant
            g == users@.map_values(|u: (&str, Vec<&str>)| (u.0@, u.1@.map_values(|n: &str| n@))),
            0 <= i <= users@.len(),
            user_insertion_point(g, user@) == i + user_insertion_point(g.skip(i as int), user@),
        decreases users@.len() - i,
    {
        assert(g.skip(i as int).drop_first() =~= g.skip(i + 1));
        assert(g.skip(i as int)[0] == g[i as int]);
        i += 1;
    }
    proof {
        if i < g.len() {
            assert(g.skip(i as int)[0] == g[i as int]);
        }
        assert(user_insertion_point(g, user@) == i);
    }
    if i < users.len() && str_eq(users[i].0, user) {
        let (existing_user, mut names) = users.remove(i);
        let ghost old_names = names@;
        names.push(name);
        users.insert(i, (existing_user, names));
        proof {
            assert(names@.map_values(|n: &str| n@) =~= old_names.map_values(|n: &str| n@).push(
                name@,
            ));
            assert(users@.map_values(|u: (&str, Vec<&str>)| (u.0@, u.1@.map_values(|n: &str| n@)))
                =~= g.update(i as int, (user@, g[i as int].1.push(name@))));
        }
    } else {
        let mut names = Vec::new();
        names.push(name);
        users.insert(i, (user, names));
        proof {
            assert(names@.map_values(|n: &str| n@) =~= seq![name@]);
            assert(users@.map_values(|u: (&str, Vec<&str>)| (u.0@, u.1@.map_values(|n: &str| n@)))
                =~= g.insert(i as int, (user@, seq![name@])));
        }
    }
}

impl<'a> UntrackedVisitor<'a> {
    /// The modules to enable so that the paths of disabled modules found so
    /// far are tracked (see `spec_suggestion`). Where a group belongs to an
    /// ad hoc owner or to an enabled module no configuration can be
    /// suggested: the result is then an error that says which (see
    /// `spec_suggest_error`), where a program printing the suggestion
    /// stops with a panic.
    pub fn suggested_config(&self) -> (res: Result<SuggestedConfig<'a>, SuggestError>)
        ensures
            match spec_suggest_error(self@.groups) {
                None => res matches Ok(s) && suggestion_view(s) == spec_suggestion(self@.groups),
                Some(e) => res matches Err(r) && r == e,
            },
    {
        let groups = self.tracked_by_disabled_module();
        let ghost g = groups_view(groups@);
        let mut system_modules: Vec<&'a str> = Vec::new();
        let mut user_modules: Vec<(&'a str, Vec<&'a str>)> = Vec::new();
        let mut i: usize = 0;
        while i < groups.len()
            invariant
                g == groups_view(groups@),
                g == self@.groups,
                0 <= i <= groups@.len(),
                forall|j: int| 0 <= j < i ==> suggestible(#[trigger] g[j].0),
                suggestion_view(SuggestedConfig { system_modules, user_modules })
                    == spec_suggestion(g.take(i as int)),
            decreases groups@.len() - i,
        {
            let owner = groups[i].0;
            assert(g.take(i + 1).drop_last() =~= g.take(i as int));
            assert(g[i as int].0 == owner@);
            match owner {
                Owner::System { name, enabled } => {
                    if enabled {
                        proof {
                            assert(!suggestible(g[i as int].0));
                            assert(spec_suggest_error(g) == Some(SuggestError::EnabledModule)) by {
                                let k = choose|k: int|
                                    0 <= k < g.len() && !suggestible(#[trigger] g[k].0) && forall|
                                        j: int,
                                    | 0 <= j < k ==> suggestible(#[trigger] g[j].0);
                                assert(k == i);
                            }
                        }
                        return Err(SuggestError::EnabledModule);
                    }
                    let ghost before = system_modules@;
                    system_modules.push(name);
                    assert(system_modules@.map_values(|n: &str| n@) =~= before.map_values(
                        |n: &str| n@,
                    ).push(name@));
                },
                Owner::User { name, user, enabled } => {
                    if enabled {
                        proof {
                            assert(!suggestible(g[i as int].0));
                            assert(spec_suggest_error(g) == Some(SuggestError::EnabledModule)) by {
                                let k = choose|k: int|
                                    0 <= k < g.len() && !suggestible(#[trigger] g[k].0) && forall|
                                        j: int,
                                    | 0 <= j < k ==> suggestible(#[trigger] g[j].0);
                                assert(k == i);
                            }
                        }
                        return Err(SuggestError::EnabledModule);
                    }
                    insert_user_module(&mut user_modules, user, name);
                },
                _ => {
                    proof {
                        assert(!suggestible(g[i as int].0));
                        assert(spec_suggest_error(g) == Some(SuggestError::AdhocOwner)) by {
                            let k = choose|k: int|
                                0 <= k < g.len() && !suggestible(#[trigger] g[k].0) && forall|
                                    j: int,
                                | 0 <= j < k ==> suggestible(#[trigger] g[j].0);
                            assert(k == i);
                        }
                    }
                    return Err(SuggestError::AdhocOwner);
                },
            }
            i += 1;
        }
        assert(g.take(i as int) =~= g);
        Ok(SuggestedConfig { system_modules, user_modules })
    }
}

/// The text of lines.
pub open spec fn lines_view(lines: Seq<String>) -> Seq<Seq<char>> {
    lines.map_values(|l: String| l@)
}

/// The line that enables the module `name`, indented by `indent`.
pub open spec fn enable_line(indent: Seq<char>, name: Seq<char>) -> Seq<char> {
    indent + name + " = true;"@
}

/// The lines that enable each of `names` in order.
pub open spec fn enable_lines(indent: Seq<char>, names: Seq<Seq<char>>) -> Seq<Seq<char>> {
    names.map_values(|n: Seq<char>| enable_line(indent, n))
}

/// The lines of one user: the user's block with a line enabling each of
/// its modules.
pub open spec fn user_block(user: (Seq<char>, Seq<Seq<char>>)) -> Seq<Seq<char>> {
    seq!["    "@ + user.0 + " = {"@, "      modules = {"@] + enable_lines("        "@, user.1)
        + seq!["      };"@, "    };"@]
}

/// The blocks of the users in order.
pub open spec fn users_lines(users: UserModulesView) -> Seq<Seq<char>>
    decreases users.len(),
{
    if users.len() == 0 {
        seq![]
    } else {
        users_lines(users.drop_last()) + user_block(users.last())
    }
}

/// The lines of a suggested configuration, in the Nix syntax of the
/// `services.gardener` option: the system modules to enable, then the
/// modules to enable for each user.
pub open spec fn spec_suggestion_lines(s: (Seq<Seq<char>>, UserModulesView)) -> Seq<Seq<char>> {
    seq!["services.gardener = {"@, "  enabledModules = {"@] + enable_lines("    "@, s.0) + seq![
        "  };"@,
        "  users = {"@,
    ] + users_lines(s.1) + seq!["  };"@, "};"@]
}

/// `a`, `b` and `c` joined.
fn joined(a: &str, b: &str, c: &str) -> (res: String)
    ensures
        res@ == a@ + b@ + c@,
{
    let mut line = String::from_str(a);
    line.append(b);
    line.append(c);
    line
}

/// Appends a line enabling each of `names` (see `enable_lines`).
fn push_enable_lines(out: &mut Vec<String>, indent: &str, names: &Vec<&str>)
    ensures
        lines_view(final(out)@) == lines_view(old(out)@) + enable_lines(
            indent@,
            names@.map_values(|n: &str| n@),
        ),
{
    let ghost start = lines_view(out@);
    let ghost nv = names@.map_values(|n: &str| n@);
    let mut i: usize = 0;
    assert(enable_lines(indent@, nv.take(0)) =~= Seq::<Seq<char>>::empty());
    assert(start + Seq::<Seq<char>>::empty() =~= start);
    while i < names.len()
        invariant
            i <= names@.len(),
            nv == names@.map_values(|n: &str| n@),
            lines_view(out@) == start + enable_lines(indent@, nv.take(i as int)),
        decreases names@.len() - i,
    {
        let ghost before = out@;
        out.push(joined(indent, names[i], " = true;"));
        proof {
            assert(nv.take(i + 1) =~= nv.take(i as int).push(nv[i as int]));
            assert(enable_lines(indent@, nv.take(i + 1)) =~= enable_lines(
                indent@,
                nv.take(i as int),
            ).push(enable_line(indent@, nv[i as int])));
            assert(lines_view(out@) =~= lines_view(before).push(
                enable_line(indent@, nv[i as int]),
            ));
        }
        i += 1;
    }
    assert(nv.take(i as int) =~= nv);
}

/// Appends `line`.
fn push_line(out: &mut Vec<String>, line: &str)
    ensures
        lines_view(final(out)@) == lines_view(old(out)@).push(line@),
{
    let ghost before = out@;
    out.push(String::from_str(line));
    assert(lines_view(out@) =~= lines_view(before).push(line@));
}

impl<'a> SuggestedConfig<'a> {
    /// The lines of the suggested configuration (see
    /// `spec_suggestion_lines`).
    pub fn lines(&self) -> (res: Vec<String>)
        ensures
            lines_view(res@) == spec_suggestion_lines(suggestion_view(*self)),
    {
        let mut out: Vec<String> = Vec::new();
        assert(lines_view(out@) =~= Seq::<Seq<char>>::empty());
        push_line(&mut out, "services.gardener = {");
        push_line(&mut out, "  enabledModules = {");
        push_enable_lines(&mut out, "    ", &self.system_modules);
        push_line(&mut out, "  };");
        push_line(&mut out, "  users = {");
        let ghost head = lines_view(out@);
        let ghost uv = suggestion_view(*self).1;
        let mut u: usize = 0;
        assert(users_lines(uv.take(0)) =~= Seq::<Seq<char>>::empty());
        assert(head + Seq::<Seq<char>>::empty() =~= head);
        while u < self.user_modules.len()
            invariant
                u <= self.user_modules@.len(),
                uv == suggestion_view(*self).1,
                lines_view(out@) == head + users_lines(uv.take(u as int)),
            decreases self.user_modules@.len() - u,
        {
            let ghost before = lines_view(out@);
            let (user, modules) = (&self.user_modules[u].0, &self.user_modules[u].1);
            let ghost user_view = uv[u as int];
            assert(user_view == ((*user)@, modules@.map_values(|n: &str| n@)));
            let first = joined("    ", user, " = {");
            let ghost b0 = out@;
            out.push(first);
            assert(lines_view(out@) =~= lines_view(b0).push("    "@ + user_view.0 + " = {"@));
            push_line(&mut out, "      modules = {");
            push_enable_lines(&mut out, "        ", modules);
            push_line(&mut out, "      };");
            push_line(&mut out, "    };");
            proof {
                assert(uv.take(u + 1).drop_last() =~= uv.take(u as int));
                assert(uv.take(u + 1).last() == user_view);
                assert(lines_view(out@) =~= before + user_block(user_view));
            }
            u += 1;
        }
        assert(uv.take(u as int) =~= uv);
        push_line(&mut out, "  };");
        push_line(&mut out, "};");
        proof {
            assert(lines_view(out@) =~= spec_suggestion_lines(suggestion_view(*self)));
        }
        out
    }
}

/// A line of the report of untracked paths: a line of text, or the line
/// that shows an owner, which is two spaces and the owner as `{:?}`
/// formats it.
pub enum ReportLine<'a> {
    Text(String),
    OwnerHeading(Owner<'a>),
}

/// A report line with its text as characters and its owner as a view.
pub enum ReportLineView {
    Text(Seq<char>),
    OwnerHeading(OwnerView),
}

/// The view of a report line.
pub open spec fn report_line_view(line: ReportLine) -> ReportLineView {
    match line {
        ReportLine::Text(text) => ReportLineView::Text(text@),
        ReportLine::OwnerHeading(owner) => ReportLineView::OwnerHeading(owner@),
    }
}

/// The views of report lines.
pub open spec fn report_lines_view(lines: Seq<ReportLine>) -> Seq<ReportLineView> {
    lines.map_values(|l: ReportLine| report_line_view(l))
}

/// The line that shows a reported path, indented by `indent`: its type
/// character, a space, and the path.
pub open spec fn path_line(indent: Seq<char>, reported: ReportedView) -> ReportLineView {
    ReportLineView::Text(indent + seq![spec_path_type_char(reported.1), ' '] + reported.0)
}

/// The lines of the paths of each group in order, each group under the
/// line of its owner.
pub open spec fn groups_lines(groups: Seq<(OwnerView, Seq<ReportedView>)>) -> Seq<ReportLineView>
    decreases groups.len(),
{
    if groups.len() == 0 {
        seq![]
    } else {
        groups_lines(groups.drop_last()) + seq![ReportLineView::OwnerHeading(groups.last().0)]
            + groups.last().1.map_values(|r: ReportedView| path_line("    "@, r))
    }
}

/// The report of what was found: the untracked paths under a heading, a
/// blank line where both parts are there, then the paths of disabled
/// modules under a heading, by owner; a part with nothing in it is left
/// out.
pub open spec fn spec_report_lines(v: UntrackedView) -> Seq<ReportLineView> {
    let untracked_part = if v.untracked.len() > 0 {
        seq![ReportLineView::Text("Untracked paths:"@)] + v.untracked.map_values(
            |r: ReportedView| path_line("  "@, r),
        ) + if v.groups.len() > 0 {
            seq![ReportLineView::Text(Seq::<char>::empty())]
        } else {
            Seq::<ReportLineView>::empty()
        }
    } else {
        Seq::<ReportLineView>::empty()
    };
    let groups_part = if v.groups.len() > 0 {
        seq![ReportLineView::Text("Tracked by disabled modules:"@)] + groups_lines(v.groups)
    } else {
        Seq::<ReportLineView>::empty()
    };
    untracked_part + groups_part
}

/// Appends a line of text.
fn push_text<'a>(out: &mut Vec<ReportLine<'a>>, text: String)
    ensures
        report_lines_view(final(out)@) == report_lines_view(old(out)@).push(
            ReportLineView::Text(text@),
        ),
{
    let ghost before = out@;
    out.push(ReportLine::Text(text));
    assert(report_lines_view(out@) =~= report_lines_view(before).push(ReportLineView::Text(text@)));
}

/// Appends the line of each path, indented by `indent`.
fn push_path_lines<'a>(out: &mut Vec<ReportLine<'a>>, indent: &str, paths: &Vec<UntrackedPath<String>>)
    ensures
        report_lines_view(final(out)@) == report_lines_view(old(out)@) + paths@.map_values(
            |u| reported_view(u),
        ).map_values(|r: ReportedView| path_line(indent@, r)),
{
    let ghost start = report_lines_view(out@);
    let ghost rv = paths@.map_values(|u| reported_view(u));
    let mut i: usize = 0;
    assert(rv.take(0).map_values(|r: ReportedView| path_line(indent@, r)) =~= Seq::<
        ReportLineView,
    >::empty());
    assert(start + Seq::<ReportLineView>::empty() =~= start);
    while i < paths.len()
        invariant
            i <= paths@.len(),
            rv == paths@.map_values(|u| reported_view(u)),
            report_lines_view(out@) == start + rv.take(i as int).map_values(
                |r: ReportedView| path_line(indent@, r),
            ),
        decreases paths@.len() - i,
    {
        let ghost before = report_lines_view(out@);
        let shown = paths[i].to_string();
        let mut line = String::from_str(indent);
        line.append(shown.as_str());
        assert(line@ =~= indent@ + seq![spec_path_type_char(paths@[i as int].path_type), ' ']
            + paths@[i as int].path@);
        push_text(out, line);
        proof {
            assert(rv[i as int] == reported_view(paths@[i as int]));
            assert(rv.take(i + 1) =~= rv.take(i as int).push(rv[i as int]));
            assert(rv.take(i + 1).map_values(|r: ReportedView| path_line(indent@, r)) =~= rv.take(
                i as int,
            ).map_values(|r: ReportedView| path_line(indent@, r)).push(
                path_line(indent@, rv[i as int]),
            ));
            assert(report_lines_view(out@) =~= before.push(path_line(indent@, rv[i as int])));
        }
        i += 1;
    }
    assert(rv.take(i as int) =~= rv);
}

impl<'a> UntrackedVisitor<'a> {
    /// The report of what was found so far (see `spec_report_lines`).
    pub fn report_lines(&self) -> (res: Vec<ReportLine<'a>>)
        ensures
            report_lines_view(res@) == spec_report_lines(self@),
    {
        let untracked = self.untracked();
        let groups = self.tracked_by_disabled_module();
        let mut out: Vec<ReportLine<'a>> = Vec::new();
        assert(report_lines_view(out@) =~= Seq::<ReportLineView>::empty());
        if untracked.len() > 0 {
            push_text(&mut out, String::from_str("Untracked paths:"));
            push_path_lines(&mut out, "  ", untracked);
            if groups.len() > 0 {
                push_text(&mut out, String::new());
            }
        }
        let ghost middle = report_lines_view(out@);
        if groups.len() > 0 {
            push_text(&mut out, String::from_str("Tracked by disabled modules:"));
            let ghost head = report_lines_view(out@);
            let ghost g = groups_view(groups@);
            let mut k: usize = 0;
            assert(groups_lines(g.take(0)) =~= Seq::<ReportLineView>::empty());
            assert(head + Seq::<ReportLineView>::empty() =~= head);
            while k < groups.len()
                invariant
                    k <= groups@.len(),
                    g == groups_view(groups@),
                    report_lines_view(out@) == head + groups_lines(g.take(k as int)),
                decreases groups@.len() - k,
            {
                let ghost before = report_lines_view(out@);
                let ghost b0 = out@;
                out.push(ReportLine::OwnerHeading(groups[k].0));
                assert(report_lines_view(out@) =~= report_lines_view(b0).push(
                    ReportLineView::OwnerHeading(g[k as int].0),
                ));
                push_path_lines(&mut out, "    ", &groups[k].1);
                proof {
                    assert(g.take(k + 1).drop_last() =~= g.take(k as int));
                    assert(g.take(k + 1).last() == g[k as int]);
                    assert(g[k as int].1 == groups@[k as int].1@.map_values(|u| reported_view(u)));
                    assert(report_lines_view(out@) =~= head + groups_lines(g.take(k + 1)));
                }
                k += 1;
            }
            assert(g.take(k as int) =~= g);
        }
        proof {
            assert(report_lines_view(out@) =~= spec_report_lines(self@));
        }
        out
    }
}

/// What lies in `a` or in `b` lies in `a + b`.
proof fn lemma_contains_concat(a: Seq<ReportLineView>, b: Seq<ReportLineView>)
    ensures
        forall|x: ReportLineView| #[trigger] a.contains(x) ==> (a + b).contains(x),
        forall|x: ReportLineView| #[trigger] b.contains(x) ==> (a + b).contains(x),
{
    assert forall|x: ReportLineView| #[trigger] a.contains(x) implies (a + b).contains(x) by {
        let k = choose|k: int| 0 <= k < a.len() && a[k] == x;
        assert((a + b)[k] == x);
    }
    assert forall|x: ReportLineView| #[trigger] b.contains(x) implies (a + b).contains(x) by {
        let k = choose|k: int| 0 <= k < b.len() && b[k] == x;
        assert((a + b)[a.len() + k] == x);
    }
}

/// The lines of the groups show every owner and every path of each group.
proof fn lemma_groups_lines_show(groups: Seq<(OwnerView, Seq<ReportedView>)>)
    ensures
        forall|g: int|
            0 <= g < groups.len() ==> groups_lines(groups).contains(
                ReportLineView::OwnerHeading((#[trigger] groups[g]).0),
            ),
        forall|g: int, j: int|
            0 <= g < groups.len() && 0 <= j < groups[g].1.len() ==> groups_lines(groups).contains(
                path_line("    "@, #[trigger] groups[g].1[j]),
            ),
    decreases groups.len(),
{
    if groups.len() > 0 {
        let rest = groups.drop_last();
        let last = groups.last();
        lemma_groups_lines_show(rest);
        let tail = seq![ReportLineView::OwnerHeading(last.0)] + last.1.map_values(
            |r: ReportedView| path_line("    "@, r),
        );
        lemma_contains_concat(groups_lines(rest), tail);
        assert(groups_lines(groups) == groups_lines(rest) + tail);
        assert(tail[0] == ReportLineView::OwnerHeading(last.0));
        assert forall|g: int| 0 <= g < groups.len() implies groups_lines(groups).contains(
            ReportLineView::OwnerHeading((#[trigger] groups[g]).0),
        ) by {
            if g < rest.len() {
                assert(rest[g] == groups[g]);
            } else {
                assert(tail.contains(ReportLineView::OwnerHeading(last.0)));
            }
        }
        assert forall|g: int, j: int|
            0 <= g < groups.len() && 0 <= j < groups[g].1.len() implies groups_lines(
            groups,
        ).contains(path_line("    "@, #[trigger] groups[g].1[j])) by {
            if g < rest.len() {
                assert(rest[g] == groups[g]);
                assert(rest[g].1[j] == groups[g].1[j]);
            } else {
                assert(groups[g] == last);
                assert(tail[1 + j] == path_line("    "@, last.1[j]));
                assert(tail.contains(path_line("    "@, last.1[j])));
            }
        }
    }
}

/// The report shows everything that was found: an empty report means
/// nothing was found; each untracked path has its line, under its heading;
/// and whenever paths of disabled modules were found, whether or not
/// untracked paths were too, their heading, each owner and each of its
/// paths have their lines.
pub proof fn law_report_shows_everything(v: UntrackedView)
    ensures
        v.untracked.len() == 0 && v.groups.len() == 0 <==> spec_report_lines(v).len() == 0,
        v.untracked.len() > 0 ==> spec_report_lines(v).contains(
            ReportLineView::Text("Untracked paths:"@),
        ),
        forall|i: int|
            0 <= i < v.untracked.len() ==> spec_report_lines(v).contains(
                ReportLineView::Text(
                    "  "@ + seq![spec_path_type_char((#[trigger] v.untracked[i]).1), ' ']
                        + v.untracked[i].0,
                ),
            ),
        v.groups.len() > 0 ==> spec_report_lines(v).contains(
            ReportLineView::Text("Tracked by disabled modules:"@),
        ),
        forall|g: int|
            0 <= g < v.groups.len() ==> spec_report_lines(v).contains(
                ReportLineView::OwnerHeading((#[trigger] v.groups[g]).0),
            ),
        forall|g: int, j: int|
            0 <= g < v.groups.len() && 0 <= j < v.groups[g].1.len() ==> spec_report_lines(
                v,
            ).contains(
                ReportLineView::Text(
                    "    "@ + seq![spec_path_type_char((#[trigger] v.groups[g].1[j]).1), ' ']
                        + v.groups[g].1[j].0,
                ),
            ),
{
    let lines = spec_report_lines(v);
    let untracked_lines = v.untracked.map_values(|r: ReportedView| path_line("  "@, r));
    let sep = if v.groups.len() > 0 {
        seq![ReportLineView::Text(Seq::<char>::empty())]
    } else {
        Seq::<ReportLineView>::empty()
    };
    let untracked_part = if v.untracked.len() > 0 {
        seq![ReportLineView::Text("Untracked paths:"@)] + untracked_lines + sep
    } else {
        Seq::<ReportLineView>::empty()
    };
    let groups_part = if v.groups.len() > 0 {
        seq![ReportLineView::Text("Tracked by disabled modules:"@)] + groups_lines(v.groups)
    } else {
        Seq::<ReportLineView>::empty()
    };
    assert(lines == untracked_part + groups_part);
    lemma_contains_concat(untracked_part, groups_part);
    if v.untracked.len() > 0 {
        let head = seq![ReportLineView::Text("Untracked paths:"@)];
        lemma_contains_concat(head, untracked_lines);
        lemma_contains_concat(head + untracked_lines, sep);
        assert(head.contains(ReportLineView::Text("Untracked paths:"@))) by {
            assert(head[0] == ReportLineView::Text("Untracked paths:"@));
        }
        assert forall|i: int| 0 <= i < v.untracked.len() implies lines.contains(
            ReportLineView::Text(
                "  "@ + seq![spec_path_type_char((#[trigger] v.untracked[i]).1), ' ']
                    + v.untracked[i].0,
            ),
        ) by {
            assert(untracked_lines[i] == path_line("  "@, v.untracked[i]));
            assert(untracked_lines.contains(untracked_lines[i]));
        }
    }
    if v.groups.len() > 0 {
        let head = seq![ReportLineView::Text("Tracked by disabled modules:"@)];
        lemma_contains_concat(head, groups_lines(v.groups));
        lemma_groups_lines_show(v.groups);
        assert(head.contains(ReportLineView::Text("Tracked by disabled modules:"@))) by {
            assert(head[0] == ReportLineView::Text("Tracked by disabled modules:"@));
        }
        assert forall|g: int, j: int|
            0 <= g < v.groups.len() && 0 <= j < v.groups[g].1.len() implies lines.contains(
            ReportLineView::Text(
                "    "@ + seq![spec_path_type_char((#[trigger] v.groups[g].1[j]).1), ' ']
                    + v.groups[g].1[j].0,
            ),
        ) by {
            assert(groups_lines(v.groups).contains(path_line("    "@, v.groups[g].1[j])));
        }
        assert(lines.len() > 0);
    }
    if v.untracked.len() > 0 {
        assert(lines.len() > 0);
    }
}

} // verus!
