use vstd::prelude::*;

use crate::decl::{DirProps, FileType, PathType};
use crate::fs;
use crate::text::chars_lt;

verus! {

/// The children of a directory of the tree, each under its own name.
///
/// A name is looked up by its first occurrence. The tree adds a name only
/// where it is not there, at its place in ascending order of names (see
/// `children_wf`).
pub struct NodeChildren<P> {
    pub entries: Vec<(String, Node<P>)>,
}

/// A node of the tree: a declared or intermediate directory, or a file.
pub type Node<P> = fs::Entry<Dir<P>, File<P>>;

/// A directory of the tree with its children.
pub struct Dir<P> {
    pub children: NodeChildren<P>,
    pub kind: DirKind<P>,
}

/// A declared file.
pub struct File<P> {
    pub file_type: FileType,
    pub props: P,
}

/// A directory that owns its contents, with its properties, or one that
/// owns only itself, with properties where it was declared and none where
/// it only lies on the way to declared paths.
#[derive(Debug)]
pub enum DirKind<P> {
    OwnsContents(P),
    Empty(Option<P>),
}

/// What the tree records at one path: the kind of a directory, or a file.
pub type Info<P> = fs::Entry<DirKind<P>, File<P>>;

/// A path below a directory of the tree, as its sequence of components.
pub type Components = Seq<Seq<char>>;

/// What a node records about its own path.
pub open spec fn node_info<P>(node: Node<P>) -> Info<P> {
    match node {
        fs::Entry::Dir(d) => fs::Entry::Dir(d.kind),
        fs::Entry::File(f) => fs::Entry::File(f),
    }
}

/// The properties a directory kind carries, if any.
pub open spec fn kind_props<P>(kind: DirKind<P>) -> Option<P> {
    match kind {
        DirKind::OwnsContents(props) => Some(props),
        DirKind::Empty(maybe_props) => maybe_props,
    }
}

/// The declared type of a recorded path.
pub open spec fn info_path_type<P>(info: Info<P>) -> PathType {
    match info {
        fs::Entry::Dir(kind) => fs::Entry::Dir(
            DirProps { owns_contents: kind is OwnsContents },
        ),
        fs::Entry::File(f) => fs::Entry::File(f.file_type),
    }
}

/// The properties recorded at a path, if any.
pub open spec fn info_props<P>(info: Info<P>) -> Option<P> {
    match info {
        fs::Entry::Dir(kind) => kind_props(kind),
        fs::Entry::File(f) => Some(f.props),
    }
}

/// What a path declared with `path_type` and `props` records.
pub open spec fn new_info<P>(path_type: PathType, props: P) -> Info<P> {
    match path_type {
        fs::Entry::Dir(d) => fs::Entry::Dir(
            if d.owns_contents {
                DirKind::OwnsContents(props)
            } else {
                DirKind::Empty(Some(props))
            },
        ),
        fs::Entry::File(file_type) => fs::Entry::File(File { file_type, props }),
    }
}

/// What a directory that only leads to declared paths records.
pub open spec fn intermediate_info<P>() -> Info<P> {
    fs::Entry::Dir(DirKind::Empty(None))
}

/// The position of the first entry named `name`, or -1 where none is.
pub open spec fn index_of_name<P>(entries: Seq<(String, Node<P>)>, name: Seq<char>) -> int
    decreases entries.len(),
{
    if entries.len() == 0 {
        -1
    } else {
        let k = index_of_name(entries.drop_last(), name);
        if k >= 0 {
            k
        } else if entries.last().0@ == name {
            entries.len() - 1
        } else {
            -1
        }
    }
}

/// What the entries record at a path below their directory, if anything.
pub open spec fn lookup<P>(entries: Seq<(String, Node<P>)>, path: Components) -> Option<Info<P>>
    decreases path.len(),
{
    if path.len() == 0 {
        None
    } else {
        let i = index_of_name(entries, path[0]);
        if i < 0 {
            None
        } else if path.len() == 1 {
            Some(node_info(entries[i].1))
        } else {
            match entries[i].1 {
                fs::Entry::Dir(d) => lookup(d.children.entries@, path.drop_first()),
                fs::Entry::File(_) => None,
            }
        }
    }
}

/// The children of every directory, at any depth, are in strictly
/// ascending order of their names (by `chars_lt`), so no two share a name:
/// the tree records each path once, and lists children by name.
pub open spec fn children_wf<P>(entries: Seq<(String, Node<P>)>) -> bool
    decreases entries,
{
    &&& forall|i: int, j: int|
        0 <= i < j < entries.len() ==> chars_lt(
            (#[trigger] entries[i]).0@,
            (#[trigger] entries[j]).0@,
        )
    &&& forall|i: int|
        0 <= i < entries.len() ==> match (#[trigger] entries[i]).1 {
            fs::Entry::Dir(d) => children_wf(d.children.entries@),
            fs::Entry::File(_) => true,
        }
}

/// Every path below a directory of the tree, with what is recorded there.
pub open spec fn entries_view<P>(entries: Seq<(String, Node<P>)>) -> Map<Components, Info<P>> {
    Map::new(|p: Components| lookup(entries, p) is Some, |p: Components| lookup(entries, p)->Some_0)
}

impl<P> View for NodeChildren<P> {
    type V = Map<Components, Info<P>>;

    open spec fn view(&self) -> Map<Components, Info<P>> {
        entries_view(self.entries@)
    }
}

/// The paths below `name`, relative to `name`.
pub open spec fn sub_view<P>(view: Map<Components, Info<P>>, name: Seq<char>) -> Map<
    Components,
    Info<P>,
> {
    Map::new(
        |p: Components| p.len() > 0 && view.contains_key(seq![name] + p),
        |p: Components| view[seq![name] + p],
    )
}

/// `view` with the paths below `name` replaced by `below`, taken relative
/// to `name`.
pub open spec fn replace_below<P>(
    view: Map<Components, Info<P>>,
    name: Seq<char>,
    below: Map<Components, Info<P>>,
) -> Map<Components, Info<P>> {
    Map::new(
        |p: Components|
            if p.len() >= 2 && p[0] == name {
                below.contains_key(p.drop_first())
            } else {
                view.contains_key(p)
            },
        |p: Components|
            if p.len() >= 2 && p[0] == name {
                below[p.drop_first()]
            } else {
                view[p]
            },
    )
}

/// The paths a new chain of directories records when it leads to `path`,
/// which records `leaf`: every proper prefix an intermediate directory.
pub open spec fn chain_view<P>(path: Components, leaf: Info<P>) -> Map<Components, Info<P>> {
    Map::new(
        |p: Components| 1 <= p.len() <= path.len() && p == path.take(p.len() as int),
        |p: Components|
            if p.len() == path.len() {
                leaf
            } else {
                intermediate_info()
            },
    )
}

/// `index_of_name` finds the first entry with the name, and only that.
pub proof fn lemma_index_of_name<P>(entries: Seq<(String, Node<P>)>, name: Seq<char>)
    ensures
        -1 <= index_of_name(entries, name) < entries.len(),
        index_of_name(entries, name) >= 0 ==> entries[index_of_name(entries, name)].0@ == name,
        forall|j: int|
            0 <= j < entries.len() && (index_of_name(entries, name) < 0 || j < index_of_name(
                entries,
                name,
            )) ==> #[trigger] entries[j].0@ != name,
    decreases entries.len(),
{
    if entries.len() > 0 {
        lemma_index_of_name(entries.drop_last(), name);
        assert forall|j: int| 0 <= j < entries.len() - 1 implies #[trigger] entries[j]
            == entries.drop_last()[j] by {}
    }
}

/// Entries with the same names at the same positions find names alike.
pub proof fn lemma_index_of_name_same_names<P>(
    a: Seq<(String, Node<P>)>,
    b: Seq<(String, Node<P>)>,
    name: Seq<char>,
)
    requires
        a.len() == b.len(),
        forall|j: int| 0 <= j < a.len() ==> #[trigger] a[j].0@ == b[j].0@,
    ensures
        index_of_name(a, name) == index_of_name(b, name),
{
    lemma_index_of_name(a, name);
    lemma_index_of_name(b, name);
    let ia = index_of_name(a, name);
    let ib = index_of_name(b, name);
    if ia >= 0 {
        assert(b[ia].0@ == name);
    }
    if ib >= 0 {
        assert(a[ib].0@ == name);
    }
}

/// A node whose children, at any depth, share no name.
pub open spec fn node_wf<P>(node: Node<P>) -> bool {
    match node {
        fs::Entry::Dir(d) => children_wf(d.children.entries@),
        fs::Entry::File(_) => true,
    }
}

/// Inserting a well-formed node at the place of its name keeps the
/// children well-formed.
pub proof fn lemma_wf_insert<P>(entries: Seq<(String, Node<P>)>, i: int, x: (String, Node<P>))
    requires
        children_wf(entries),
        0 <= i <= entries.len(),
        forall|j: int| 0 <= j < i ==> chars_lt(#[trigger] entries[j].0@, x.0@),
        forall|j: int| i <= j < entries.len() ==> chars_lt(x.0@, #[trigger] entries[j].0@),
        node_wf(x.1),
    ensures
        children_wf(entries.insert(i, x)),
{
    let ins = entries.insert(i, x);
    entries.insert_ensures(i, x);
    assert forall|a: int, b: int| 0 <= a < b < ins.len() implies chars_lt(
        (#[trigger] ins[a]).0@,
        (#[trigger] ins[b]).0@,
    ) by {
        if a < i && b < i {
        } else if a < i && b == i {
        } else if a < i {
            assert(ins[b] == entries[b - 1]);
        } else if a == i {
            assert(ins[b] == entries[b - 1]);
        } else {
            assert(ins[a] == entries[a - 1] && ins[b] == entries[b - 1]);
        }
    }
    assert forall|a: int| 0 <= a < ins.len() implies match (#[trigger] ins[a]).1 {
        fs::Entry::Dir(d) => children_wf(d.children.entries@),
        fs::Entry::File(_) => true,
    } by {
        if a < i {
        } else if a > i {
            assert(ins[a] == entries[a - 1]);
        }
    }
}

/// `index_of_name` gives `t` where `t` is the first entry named `name`, or
/// -1 where none is.
pub proof fn lemma_index_is<P>(entries: Seq<(String, Node<P>)>, name: Seq<char>, t: int)
    requires
        (t == -1 && forall|j: int| 0 <= j < entries.len() ==> #[trigger] entries[j].0@ != name) || (
        0 <= t < entries.len() && entries[t].0@ == name && forall|j: int|
            0 <= j < t ==> #[trigger] entries[j].0@ != name),
    ensures
        index_of_name(entries, name) == t,
{
    lemma_index_of_name(entries, name);
    let k = index_of_name(entries, name);
    if k >= 0 && t >= 0 {
        if k < t {
            assert(entries[k].0@ != name);
        }
        if t < k {
            assert(entries[t].0@ != name);
        }
    }
    if k >= 0 && t == -1 {
        assert(entries[k].0@ != name);
    }
}

/// Inserting an entry under a new name adds exactly the paths below it.
pub proof fn lemma_view_insert<P>(entries: Seq<(String, Node<P>)>, i: int, x: (String, Node<P>))
    requires
        index_of_name(entries, x.0@) == -1,
        0 <= i <= entries.len(),
    ensures
        entries_view(entries.insert(i, x)) == entries_view(entries).union_prefer_right(
            entries_view(seq![x]),
        ),
{
    let ins = entries.insert(i, x);
    let single = seq![x];
    entries.insert_ensures(i, x);
    lemma_index_of_name(entries, x.0@);
    assert(single.drop_last() =~= Seq::<(String, Node<P>)>::empty());
    assert forall|p: Components| #[trigger]
        lookup(ins, p) == (if lookup(single, p) is Some {
            lookup(single, p)
        } else {
            lookup(entries, p)
        }) by {
        if p.len() > 0 {
            let name = p[0];
            assert(index_of_name(Seq::<(String, Node<P>)>::empty(), name) == -1);
            assert(index_of_name(single, name) == if x.0@ == name {
                0
            } else {
                -1
            });
            if name == x.0@ {
                assert forall|j: int| 0 <= j < i implies #[trigger] ins[j].0@ != name by {
                    assert(ins[j] == entries[j]);
                }
                lemma_index_is(ins, name, i);
                assert(single[0] == x);
            } else {
                lemma_index_of_name(entries, name);
                let k = index_of_name(entries, name);
                if k < 0 {
                    assert forall|j: int| 0 <= j < ins.len() implies #[trigger] ins[j].0@ != name by {
                        if j > i {
                            assert(ins[j] == entries[j - 1]);
                        }
                    }
                    lemma_index_is(ins, name, -1);
                } else if k < i {
                    assert forall|j: int| 0 <= j < k implies #[trigger] ins[j].0@ != name by {
                        assert(ins[j] == entries[j]);
                    }
                    assert(ins[k] == entries[k]);
                    lemma_index_is(ins, name, k);
                } else {
                    assert forall|j: int| 0 <= j < k + 1 implies #[trigger] ins[j].0@ != name by {
                        if j < i {
                            assert(ins[j] == entries[j]);
                        } else if j > i {
                            assert(ins[j] == entries[j - 1]);
                        }
                    }
                    assert(ins[k + 1] == entries[k]);
                    lemma_index_is(ins, name, k + 1);
                }
            }
        }
    }
    assert(entries_view(ins) =~= entries_view(entries).union_prefer_right(entries_view(single)));
}

/// Below a directory entry, the paths are those of its children.
pub proof fn lemma_sub_view<P>(entries: Seq<(String, Node<P>)>, i: int, d: Dir<P>)
    requires
        0 <= i < entries.len(),
        index_of_name(entries, entries[i].0@) == i,
        entries[i].1 == Node::<P>::Dir(d),
    ensures
        sub_view(entries_view(entries), entries[i].0@) == d.children@,
{
    let name = entries[i].0@;
    assert forall|q: Components| q.len() > 0 implies #[trigger] lookup(entries, seq![name] + q)
        == lookup(d.children.entries@, q) by {
        let p = seq![name] + q;
        assert(p[0] == name);
        assert(p.drop_first() =~= q);
    }
    assert(sub_view(entries_view(entries), name) =~= d.children@);
}

/// Replacing a directory entry by one of the same kind with other
/// children replaces the paths below it.
pub proof fn lemma_view_update_children<P>(
    entries: Seq<(String, Node<P>)>,
    i: int,
    d1: Dir<P>,
    d2: Dir<P>,
)
    requires
        0 <= i < entries.len(),
        index_of_name(entries, entries[i].0@) == i,
        entries[i].1 == Node::<P>::Dir(d1),
        d2.kind == d1.kind,
    ensures
        entries_view(entries.update(i, (entries[i].0, Node::<P>::Dir(d2)))) == replace_below(
            entries_view(entries),
            entries[i].0@,
            d2.children@,
        ),
{
    let name = entries[i].0@;
    let updated = entries.update(i, (entries[i].0, Node::<P>::Dir(d2)));
    assert forall|q: Components| #[trigger] lookup(updated, q) == (if q.len() >= 2 && q[0] == name {
        lookup(d2.children.entries@, q.drop_first())
    } else {
        lookup(entries, q)
    }) by {
        if q.len() > 0 {
            lemma_index_of_name_same_names(updated, entries, q[0]);
            lemma_index_of_name(entries, q[0]);
            let k = index_of_name(entries, q[0]);
            if k >= 0 && k != i {
                assert(updated[k] == entries[k]);
            }
        }
    }
    assert(entries_view(updated) =~= replace_below(entries_view(entries), name, d2.children@));
}

/// Replacing a directory entry by one with the same children and another
/// kind changes only what its own path records.
pub proof fn lemma_view_update_kind<P>(
    entries: Seq<(String, Node<P>)>,
    i: int,
    d1: Dir<P>,
    d2: Dir<P>,
)
    requires
        0 <= i < entries.len(),
        index_of_name(entries, entries[i].0@) == i,
        entries[i].1 == Node::<P>::Dir(d1),
        d2.children == d1.children,
    ensures
        entries_view(entries.update(i, (entries[i].0, Node::<P>::Dir(d2)))) == entries_view(
            entries,
        ).insert(seq![entries[i].0@], fs::Entry::Dir(d2.kind)),
{
    let name = entries[i].0@;
    let updated = entries.update(i, (entries[i].0, Node::<P>::Dir(d2)));
    assert forall|q: Components| #[trigger] lookup(updated, q) == (if q == seq![name] {
        Some(fs::Entry::Dir(d2.kind))
    } else {
        lookup(entries, q)
    }) by {
        if q.len() > 0 {
            lemma_index_of_name_same_names(updated, entries, q[0]);
            lemma_index_of_name(entries, q[0]);
            let k = index_of_name(entries, q[0]);
            if k >= 0 && k != i {
                assert(updated[k] == entries[k]);
            }
            if q.len() == 1 && q[0] == name {
                assert(q =~= seq![name]);
            }
        }
    }
    assert(entries_view(updated) =~= entries_view(entries).insert(
        seq![name],
        fs::Entry::Dir(d2.kind),
    ));
}

/// Putting back what lay below a name changes nothing.
pub proof fn lemma_replace_below_sub<P>(view: Map<Components, Info<P>>, name: Seq<char>)
    ensures
        replace_below(view, name, sub_view(view, name)) == view,
{
    assert forall|p: Components| p.len() >= 2 && p[0] == name implies seq![name] + p.drop_first()
        == p by {
        assert(seq![name] + p.drop_first() =~= p);
    }
    assert(replace_below(view, name, sub_view(view, name)) =~= view);
}

impl<P> NodeChildren<P> {
    /// No children.
    pub fn new() -> (res: Self)
        ensures
            res.entries@.len() == 0,
            res@ == Map::<Components, Info<P>>::empty(),
    {
        let res = NodeChildren { entries: Vec::new() };
        assert(res@ =~= Map::<Components, Info<P>>::empty());
        res
    }

    /// The position of the child named `name`, if there is one.
    pub fn position(&self, name: &str) -> (res: Option<usize>)
        ensures
            match res {
                Some(i) => i as int == index_of_name(self.entries@, name@),
                None => index_of_name(self.entries@, name@) == -1,
            },
    {
        proof {
            lemma_index_of_name(self.entries@, name@);
        }
        let name_string = name.to_owned();
        let mut i: usize = 0;
        while i < self.entries.len()
            invariant
                name_string@ == name@,
                i <= self.entries@.len(),
                forall|j: int| 0 <= j < i ==> #[trigger] self.entries@[j].0@ != name@,
                -1 <= index_of_name(self.entries@, name@) < self.entries@.len(),
                index_of_name(self.entries@, name@) >= 0 ==> self.entries@[index_of_name(
                    self.entries@,
                    name@,
                )].0@ == name@,
                forall|j: int|
                    0 <= j < self.entries@.len() && (index_of_name(self.entries@, name@) < 0 || j
                        < index_of_name(self.entries@, name@)) ==> #[trigger] self.entries@[j].0@
                        != name@,
            decreases self.entries@.len() - i,
        {
            if self.entries[i].0 == name_string {
                return Some(i);
            }
            i += 1;
        }
        None
    }
}


impl<P: Copy> NodeChildren<P> {
    /// The child named `name`, if there is one.
    pub fn get(&self, name: &str) -> (res: Option<&Node<P>>)
        ensures
            match res {
                Some(node) => {
                    &&& self@.contains_key(seq![name@])
                    &&& node_info(*node) == self@[seq![name@]]
                    &&& (*node matches fs::Entry::Dir(d) ==> d.children@ == sub_view(self@, name@))
                },
                None => !self@.contains_key(seq![name@]),
            },
    {
        match self.position(name) {
            Some(i) => {
                proof {
                    lemma_index_of_name(self.entries@, name@);
                    if let fs::Entry::Dir(d) = self.entries@[i as int].1 {
                        lemma_sub_view(self.entries@, i as int, d);
                    }
                }
                Some(&self.entries[i].1)
            },
            None => None,
        }
    }

    /// Whether there are no children.
    pub fn is_empty(&self) -> (res: bool)
        ensures
            res == (self@.dom() == Set::<Components>::empty()),
    {
        proof {
            if self.entries@.len() > 0 {
                let name = self.entries@[0].0@;
                lemma_index_of_name(self.entries@, name);
                assert(lookup(self.entries@, seq![name]) is Some);
                assert(self@.dom().contains(seq![name]));
            } else {
                assert(self@.dom() =~= Set::<Components>::empty());
            }
        }
        self.entries.len() == 0
    }
}

impl<P: Copy> fs::Entry<Dir<P>, File<P>> {
    /// A directory that only leads to declared paths.
    pub(crate) fn intermediate() -> (res: Self)
        ensures
            node_info(res) == intermediate_info::<P>(),
            res matches fs::Entry::Dir(d) && d.children.entries@.len() == 0,
    {
        fs::Entry::Dir(Dir { children: NodeChildren::new(), kind: DirKind::Empty(None) })
    }

    /// The node for a path declared with `path_type` and `props`, without
    /// children.
    pub(crate) fn new(path_type: PathType, props: P) -> (res: Self)
        ensures
            node_info(res) == new_info(path_type, props),
            res matches fs::Entry::Dir(d) ==> d.children.entries@.len() == 0,
    {
        match path_type {
            fs::Entry::Dir(d) => fs::Entry::Dir(
                Dir {
                    children: NodeChildren::new(),
                    kind: if d.owns_contents {
                        DirKind::OwnsContents(props)
                    } else {
                        DirKind::Empty(Some(props))
                    },
                },
            ),
            fs::Entry::File(file_type) => fs::Entry::File(File { file_type, props }),
        }
    }

    /// The children of a directory; a file has none.
    pub fn get_children(&self) -> (res: Option<&NodeChildren<P>>)
        ensures
            match *self {
                fs::Entry::Dir(d) => res matches Some(c) && *c == d.children,
                fs::Entry::File(_) => res is None,
            },
    {
        match self {
            fs::Entry::Dir(d) => Some(&d.children),
            fs::Entry::File(_) => None,
        }
    }

    /// The declared type of the node's path.
    pub fn path_type(&self) -> (res: PathType)
        ensures
            res == info_path_type(node_info(*self)),
    {
        match self {
            fs::Entry::Dir(d) => fs::Entry::Dir(
                DirProps {
                    owns_contents: match d.kind {
                        DirKind::OwnsContents(_) => true,
                        DirKind::Empty(_) => false,
                    },
                },
            ),
            fs::Entry::File(f) => fs::Entry::File(f.file_type),
        }
    }

    /// The properties recorded at the node's path, if any.
    pub fn get_props(&self) -> (res: Option<P>)
        ensures
            res == info_props(node_info(*self)),
    {
        match self {
            fs::Entry::Dir(d) => d.kind.get_props(),
            fs::Entry::File(f) => Some(f.props),
        }
    }
}

impl<P: Copy> DirKind<P> {
    /// The properties of the directory, if any.
    pub fn get_props(&self) -> (res: Option<P>)
        ensures
            res == kind_props(*self),
    {
        match *self {
            DirKind::Empty(maybe_props) => maybe_props,
            DirKind::OwnsContents(props) => Some(props),
        }
    }
}

} // verus!
