mod node;
pub mod laws;
pub mod util;

pub use self::node::{
    chain_view, children_wf, entries_view, index_of_name, info_path_type, info_props,
    intermediate_info, kind_props, lookup, new_info, node_info, node_wf, replace_below, sub_view,
    Components, Dir, DirKind, File, Info, Node, NodeChildren,
};
use self::node::{
    lemma_index_of_name, lemma_replace_below_sub, lemma_sub_view,
    lemma_view_insert, lemma_view_update_children, lemma_view_update_kind, lemma_wf_insert,
};

use vstd::prelude::*;

use crate::decl::PathType;
use crate::fs;
use crate::text::{chars_lt, lemma_chars_lt_total, lemma_chars_lt_transitive, str_lt};

verus! {

/// The declared paths, as a tree of their components below the root.
pub struct Tree<P> {
    pub root: NodeChildren<P>,
}

impl<P> Tree<P> {
    /// The children of every directory are in ascending order of name, so
    /// none is there twice, and every directory recorded without properties
    /// has a recorded child.
    pub open spec fn wf(&self) -> bool {
        &&& children_wf(self.root.entries@)
        &&& laws::intermediates_lead_on(self@)
    }
}

impl<P> View for Tree<P> {
    type V = Map<Components, Info<P>>;

    /// Every declared path, or path on the way to one, with what is recorded
    /// there.
    open spec fn view(&self) -> Map<Components, Info<P>> {
        self.root@
    }
}

/// Why a path could not be added to the tree.
#[derive(Debug)]
pub enum TreeError<P> {
    /// The path is the root itself.
    EmptyPath,
    /// The path does not start at the root.
    RelativePath,
    /// The directory was declared before, with these properties.
    ExistingProps(P),
    /// The path, or a path on the way to it, is declared with another type.
    ConflictingPathType,
    /// The path holds a component other than a name, such as `..`.
    UnexpectedPathComponent(String),
}

/// Why a path has no components in the tree.
pub enum PathError {
    /// It does not start at the root.
    Relative,
    /// It holds `..`.
    ParentDir,
}

/// A segment between slashes that names nothing: empty, or `.`.
pub open spec fn is_ignored_segment(segment: Seq<char>) -> bool {
    segment.len() == 0 || segment == seq!['.']
}

/// The segment as a component, unless it names nothing.
pub open spec fn emit_segment(segment: Seq<char>) -> Components {
    if is_ignored_segment(segment) {
        seq![]
    } else {
        seq![segment]
    }
}

/// The components of `s`, split at slashes, where `current` is the part of
/// a segment already read before `s`.
pub open spec fn segments(s: Seq<char>, current: Seq<char>) -> Components
    decreases s.len(),
{
    if s.len() == 0 {
        emit_segment(current)
    } else if s[0] == '/' {
        emit_segment(current) + segments(s.drop_first(), seq![])
    } else {
        segments(s.drop_first(), current.push(s[0]))
    }
}

/// The components of a path: the segments after its leading slash, less
/// empty ones and `.`. A path without a leading slash is relative, and one
/// with a `..` segment is refused.
pub open spec fn spec_path_components(path: Seq<char>) -> Result<Components, PathError> {
    if path.len() == 0 || path[0] != '/' {
        Err(PathError::Relative)
    } else {
        let segs = segments(path.drop_first(), seq![]);
        if segs.contains(seq!['.', '.']) {
            Err(PathError::ParentDir)
        } else {
            Ok(segs)
        }
    }
}

/// The tree error that reports a path error; `..` is reported by the debug
/// name of the component, `ParentDir`.
pub open spec fn path_error_matches<P>(e: TreeError<P>, pe: PathError) -> bool {
    match pe {
        PathError::Relative => e is RelativePath,
        PathError::ParentDir => e matches TreeError::UnexpectedPathComponent(s) && s@
            == "ParentDir"@,
    }
}

/// The names of a list of components.
pub open spec fn names_view(names: Seq<String>) -> Components {
    names.map_values(|s: String| s@)
}

/// Adding the last component `name` below a directory whose paths are
/// `view`: a new name is recorded; a directory declared over a directory
/// takes the new properties when it owns its contents, unless properties
/// were declared there before; any other meeting of types conflicts.
pub open spec fn spec_add_last<P>(
    view: Map<Components, Info<P>>,
    name: Seq<char>,
    path_type: PathType,
    props: P,
) -> Result<Map<Components, Info<P>>, TreeError<P>> {
    let key = seq![name];
    if !view.contains_key(key) {
        Ok(view.insert(key, new_info(path_type, props)))
    } else {
        match (view[key], path_type) {
            (fs::Entry::Dir(kind), fs::Entry::Dir(d)) => match kind_props(kind) {
                Some(existing) => Err(TreeError::ExistingProps(existing)),
                None => if d.owns_contents {
                    Ok(view.insert(key, fs::Entry::Dir(DirKind::OwnsContents(props))))
                } else {
                    Ok(view)
                },
            },
            _ => Err(TreeError::ConflictingPathType),
        }
    }
}

/// Adding the path `comps` below a directory whose paths are `view`: the
/// path is followed through existing directories; where it leaves them, the
/// rest is created as intermediate directories leading to the new entry;
/// a file on the way conflicts.
pub open spec fn spec_add<P>(
    view: Map<Components, Info<P>>,
    comps: Components,
    path_type: PathType,
    props: P,
) -> Result<Map<Components, Info<P>>, TreeError<P>>
    decreases comps.len(),
{
    if comps.len() == 0 {
        Err(TreeError::EmptyPath)
    } else if comps.len() == 1 {
        spec_add_last(view, comps[0], path_type, props)
    } else if !view.contains_key(seq![comps[0]]) {
        Ok(view.union_prefer_right(chain_view(comps, new_info(path_type, props))))
    } else {
        match view[seq![comps[0]]] {
            fs::Entry::File(_) => Err(TreeError::ConflictingPathType),
            fs::Entry::Dir(_) => match spec_add(
                sub_view(view, comps[0]),
                comps.drop_first(),
                path_type,
                props,
            ) {
                Ok(below) => Ok(replace_below(view, comps[0], below)),
                Err(e) => Err(e),
            },
        }
    }
}

/// Whether adding `comps` meets a file declared before with the same type,
/// which this tree does not yet handle: every directory on the way exists
/// and the path itself is such a file.
pub open spec fn spec_add_unsupported<P>(
    view: Map<Components, Info<P>>,
    comps: Components,
    path_type: PathType,
) -> bool
    decreases comps.len(),
{
    if comps.len() == 0 {
        false
    } else if !view.contains_key(seq![comps[0]]) {
        false
    } else if comps.len() == 1 {
        view[seq![comps[0]]] matches fs::Entry::File(f) && path_type == PathType::File(
            f.file_type,
        )
    } else {
        view[seq![comps[0]]] is Dir && spec_add_unsupported(
            sub_view(view, comps[0]),
            comps.drop_first(),
            path_type,
        )
    }
}

/// Whether adding `path` meets a file declared before with the same type.
pub open spec fn spec_add_path_unsupported<P>(
    view: Map<Components, Info<P>>,
    path: Seq<char>,
    path_type: PathType,
) -> bool {
    spec_path_components(path) matches Ok(comps) && spec_add_unsupported(view, comps, path_type)
}

impl<P: Copy> Tree<P> {
    /// A tree without declared paths.
    #[allow(clippy::new_without_default)]
    pub fn new() -> (res: Self)
        ensures
            res@ == Map::<Components, Info<P>>::empty(),
            res.wf(),
    {
        Self { root: NodeChildren::new() }
    }

    /// The components of `path` (see `spec_path_components`).
    fn path_to_components(path: &str) -> (res: Result<Vec<String>, TreeError<P>>)
        ensures
            match spec_path_components(path@) {
                Ok(comps) => res matches Ok(names) && names_view(names@) == comps,
                Err(pe) => res matches Err(e) && path_error_matches(e, pe),
            },
    {
        let n = path.unicode_len();
        if n == 0 || path.get_char(0) != '/' {
            return Err(TreeError::RelativePath);
        }
        let ghost whole = path@.drop_first();
        let mut components: Vec<String> = Vec::new();
        let mut start: usize = 1;
        let mut i: usize = 1;
        assert(path@.subrange(1, n as int) =~= whole);
        assert(path@.subrange(1, 1) =~= Seq::<char>::empty());
        assert(names_view(components@) =~= Seq::<Seq<char>>::empty());
        while i < n
            invariant
                n == path@.len(),
                path@[0] == '/',
                1 <= start <= i <= n,
                whole == path@.drop_first(),
                names_view(components@) + segments(
                    path@.subrange(i as int, n as int),
                    path@.subrange(start as int, i as int),
                ) == segments(whole, seq![]),
                !names_view(components@).contains(seq!['.', '.']),
            decreases n - i,
        {
            let c = path.get_char(i);
            let ghost rest = path@.subrange(i as int, n as int);
            let ghost current = path@.subrange(start as int, i as int);
            assert(rest[0] == c);
            assert(rest.drop_first() =~= path@.subrange(i + 1, n as int));
            if c == '/' {
                let len = i - start;
                let is_dot = len == 1 && path.get_char(start) == '.';
                let is_dot_dot = len == 2 && path.get_char(start) == '.' && path.get_char(start + 1)
                    == '.';
                if is_dot_dot {
                    assert(current =~= seq!['.', '.']);
                    assert(segments(whole, seq![]) =~= names_view(components@) + (seq![current]
                        + segments(rest.drop_first(), seq![])));
                    assert(segments(whole, seq![])[names_view(components@).len() as int]
                        == current);
                    assert(segments(whole, seq![]).contains(seq!['.', '.']));
                    return Err(TreeError::UnexpectedPathComponent(String::from_str("ParentDir")));
                }
                if is_dot {
                    assert(current =~= seq!['.']);
                }
                assert(current.len() == len);
                assert(len >= 1 ==> current[0] == path@[start as int]);
                if !(len == 0 || is_dot) {
                    assert(current != seq!['.']) by {
                        if current == seq!['.'] {
                            assert(current[0] == '.');
                        }
                    }
                    let segment = path.substring_char(start, i).to_owned();
                    assert(segment@ == current);
                    let ghost before = names_view(components@);
                    components.push(segment);
                    assert(names_view(components@) =~= before.push(current));
                    assert(current != seq!['.', '.']) by {
                        if current == seq!['.', '.'] {
                            assert(current.len() == 2);
                            assert(current[0] == '.' && current[1] == '.');
                            assert(path@[start as int] == '.');
                        }
                    }
                    assert(!names_view(components@).contains(seq!['.', '.'])) by {
                        if names_view(components@).contains(seq!['.', '.']) {
                            let j = choose|j: int|
                                0 <= j < names_view(components@).len() && names_view(
                                    components@,
                                )[j] == seq!['.', '.'];
                            if j < before.len() {
                                assert(before[j] == seq!['.', '.']);
                            }
                        }
                    }
                    assert(emit_segment(current) =~= seq![current]);
                } else {
                    assert(emit_segment(current) =~= Seq::<Seq<char>>::empty());
                }
                assert(names_view(components@) + segments(
                    path@.subrange(i + 1, i + 1 + (n - i - 1)),
                    seq![],
                ) =~= segments(whole, seq![]));
                start = i + 1;
                assert(path@.subrange(start as int, start as int) =~= Seq::<char>::empty());
            } else {
                assert(current.push(c) =~= path@.subrange(start as int, i + 1));
            }
            i += 1;
        }
        let ghost current = path@.subrange(start as int, n as int);
        assert(path@.subrange(n as int, n as int) =~= Seq::<char>::empty());
        let len = n - start;
        let is_dot = len == 1 && path.get_char(start) == '.';
        let is_dot_dot = len == 2 && path.get_char(start) == '.' && path.get_char(start + 1)
            == '.';
        if is_dot_dot {
            assert(current =~= seq!['.', '.']);
            assert(segments(whole, seq![]) =~= names_view(components@) + seq![current]);
            assert(segments(whole, seq![])[names_view(components@).len() as int] == current);
            assert(segments(whole, seq![]).contains(seq!['.', '.']));
            return Err(TreeError::UnexpectedPathComponent(String::from_str("ParentDir")));
        }
        if is_dot {
            assert(current =~= seq!['.']);
        }
        assert(current.len() == len);
        assert(len >= 1 ==> current[0] == path@[start as int]);
        if !(len == 0 || is_dot) {
            assert(current != seq!['.']) by {
                if current == seq!['.'] {
                    assert(current[0] == '.');
                }
            }
            assert(emit_segment(current) =~= seq![current]);
            let segment = path.substring_char(start, n).to_owned();
            let ghost before = names_view(components@);
            components.push(segment);
            assert(names_view(components@) =~= before.push(current));
            assert(current != seq!['.', '.']) by {
                if current == seq!['.', '.'] {
                    assert(current[0] == '.' && current[1] == '.');
                    assert(path@[start as int] == '.');
                }
            }
            assert(!names_view(components@).contains(seq!['.', '.'])) by {
                if names_view(components@).contains(seq!['.', '.']) {
                    let j = choose|j: int|
                        0 <= j < names_view(components@).len() && names_view(components@)[j]
                            == seq!['.', '.'];
                    if j < before.len() {
                        assert(before[j] == seq!['.', '.']);
                    }
                }
            }
            assert(names_view(components@) =~= segments(whole, seq![]));
        } else {
            assert(emit_segment(current) =~= Seq::<Seq<char>>::empty());
            assert(names_view(components@) =~= segments(whole, seq![]));
        }
        Ok(components)
    }

    /// Adds `path` with its declared type and properties (see `spec_add`
    /// and `spec_path_components`). On an error the tree is left as it was.
    pub fn add_path(&mut self, path: &str, path_type: PathType, props: P) -> (res: Result<
        (),
        TreeError<P>,
    >)
        requires
            !spec_add_path_unsupported(old(self)@, path@, path_type),
        ensures
            match spec_path_components(path@) {
                Err(pe) => res matches Err(e) && path_error_matches(e, pe) && final(self)@ == old(
                    self,
                )@,
                Ok(comps) => match spec_add(old(self)@, comps, path_type, props) {
                    Ok(view) => res is Ok && final(self)@ == view,
                    Err(e) => res == Err::<(), TreeError<P>>(e) && final(self)@ == old(self)@,
                },
            },
            res is Err ==> final(self)@ == old(self)@,
            old(self).wf() ==> final(self).wf(),
    {
        let ghost before = *self;
        let components = Self::path_to_components(path)?;
        let res = self.add_path_by_components(&components, path_type, props);
        proof {
            laws::law_tree_prefix_closed(before);
            if res is Ok && before.wf() {
                laws::lemma_add_intermediates_lead_on(
                    before@,
                    names_view(components@),
                    path_type,
                    props,
                );
            }
        }
        res
    }

    /// Adds the path with these components (see `spec_add`).
    fn add_path_by_components(
        &mut self,
        components: &Vec<String>,
        path_type: PathType,
        props: P,
    ) -> (res: Result<(), TreeError<P>>)
        requires
            !spec_add_unsupported(old(self)@, names_view(components@), path_type),
        ensures
            match spec_add(old(self)@, names_view(components@), path_type, props) {
                Ok(view) => res is Ok && final(self)@ == view,
                Err(e) => res == Err::<(), TreeError<P>>(e) && final(self)@ == old(self)@,
            },
            children_wf(old(self).root.entries@) ==> children_wf(final(self).root.entries@),
    {
        if components.len() == 0 {
            return Err(TreeError::EmptyPath);
        }
        assert(names_view(components@).skip(0) =~= names_view(components@));
        Self::add_to_children(&mut self.root, components, 0, path_type, props)
    }

    /// Adds the path `components[k..]` below the directory whose children
    /// are `children`.
    fn add_to_children(
        children: &mut NodeChildren<P>,
        components: &Vec<String>,
        k: usize,
        path_type: PathType,
        props: P,
    ) -> (res: Result<(), TreeError<P>>)
        requires
            k < components@.len(),
            !spec_add_unsupported(old(children)@, names_view(components@).skip(k as int), path_type),
        ensures
            match spec_add(old(children)@, names_view(components@).skip(k as int), path_type, props) {
                Ok(view) => res is Ok && final(children)@ == view,
                Err(e) => res == Err::<(), TreeError<P>>(e) && final(children)@ == old(children)@,
            },
            children_wf(old(children).entries@) ==> children_wf(final(children).entries@),
        decreases components@.len() - k,
    {
        let ghost comps = names_view(components@).skip(k as int);
        let ghost old_entries = children.entries@;
        let ghost old_view = children@;
        let ghost name = comps[0];
        assert(name == components@[k as int]@);
        match children.position(components[k].as_str()) {
            None => {
                assert(!old_view.contains_key(seq![name]));
                Self::insert_into_vacant(children, components, k, path_type, props);
                proof {
                    if comps.len() == 1 {
                        assert(old_view.union_prefer_right(
                            chain_view(comps, new_info(path_type, props)),
                        ) =~= old_view.insert(seq![name], new_info(path_type, props))) by {
                            assert forall|p: Components| #[trigger]
                                chain_view(comps, new_info(path_type, props)).contains_key(
                                    p,
                                ) implies p == seq![name] by {
                                assert(p =~= seq![name]);
                            }
                            assert(chain_view(comps, new_info(path_type, props)).contains_key(
                                seq![name],
                            )) by {
                                assert(comps.take(1) =~= seq![name]);
                            }
                        }
                    }
                }
                Ok(())
            },
            Some(i) => {
                proof {
                    lemma_index_of_name(old_entries, name);
                }
                let ghost old_node = old_entries[i as int].1;
                assert(old_view.contains_key(seq![name]));
                assert(old_view[seq![name]] == node_info(old_node));
                if let fs::Entry::File(_) = &children.entries[i].1 {
                    return Err(TreeError::ConflictingPathType);
                }
                if k == components.len() - 1 {
                    if let fs::Entry::File(_) = path_type {
                        return Err(TreeError::ConflictingPathType);
                    }
                }
                let (entry_name, node) = children.entries.remove(i);
                match node {
                    fs::Entry::Dir(mut d) => {
                        let ghost d1 = d;
                        let res = if k == components.len() - 1 {
                            let owns_contents = match path_type {
                                fs::Entry::Dir(new_dir) => new_dir.owns_contents,
                                fs::Entry::File(_) => false,
                            };
                            Self::merge_dirs(&mut d.kind, owns_contents, props)
                        } else {
                            proof {
                                lemma_sub_view(old_entries, i as int, d1);
                                assert(comps.drop_first() =~= names_view(components@).skip(
                                    k + 1,
                                ));
                            }
                            Self::add_to_children(&mut d.children, components, k + 1, path_type, props)
                        };
                        let ghost d2 = d;
                        children.entries.insert(i, (entry_name, fs::Entry::Dir(d)));
                        proof {
                            assert(children.entries@ =~= old_entries.update(
                                i as int,
                                (old_entries[i as int].0, Node::<P>::Dir(d2)),
                            ));
                            if k == components.len() - 1 {
                                lemma_view_update_kind(old_entries, i as int, d1, d2);
                                assert(old_view.insert(seq![name], fs::Entry::Dir(d1.kind))
                                    =~= old_view);
                            } else {
                                lemma_view_update_children(old_entries, i as int, d1, d2);
                                lemma_replace_below_sub(old_view, name);
                            }
                        }
                        res
                    },
                    fs::Entry::File(_) => {
                        // Ruled out above.
                        children.entries.insert(i, (entry_name, node));
                        Err(TreeError::ConflictingPathType)
                    },
                }
            },
        }
    }

    /// Adds `components[k..]` below a directory that has no child named
    /// `components[k]`: intermediate directories leading to the new node.
    fn insert_into_vacant(
        children: &mut NodeChildren<P>,
        components: &Vec<String>,
        k: usize,
        path_type: PathType,
        props: P,
    )
        requires
            k < components@.len(),
            index_of_name(old(children).entries@, components@[k as int]@) == -1,
        ensures
            final(children)@ == old(children)@.union_prefer_right(
                chain_view(names_view(components@).skip(k as int), new_info(path_type, props)),
            ),
            children_wf(old(children).entries@) ==> children_wf(final(children).entries@),
    {
        let node = Self::build_chain(components, k, path_type, props);
        let name = components[k].clone();
        // The new name goes before the first name that does not come
        // before it, which keeps the children in order.
        let mut i: usize = 0;
        while i < children.entries.len() && str_lt(children.entries[i].0.as_str(), name.as_str())
            invariant
                i <= children.entries@.len(),
                forall|j: int| 0 <= j < i ==> chars_lt(#[trigger] children.entries@[j].0@, name@),
            decreases children.entries@.len() - i,
        {
            i += 1;
        }
        proof {
            let entries = children.entries@;
            lemma_view_insert(entries, i as int, (name, node));
            if children_wf(entries) {
                lemma_index_of_name(entries, name@);
                if i < entries.len() {
                    lemma_chars_lt_total(entries[i as int].0@, name@);
                    assert(chars_lt(name@, entries[i as int].0@));
                    assert forall|j: int| i <= j < entries.len() implies chars_lt(
                        name@,
                        #[trigger] entries[j].0@,
                    ) by {
                        if j > i {
                            lemma_chars_lt_transitive(name@, entries[i as int].0@, entries[j].0@);
                        }
                    }
                }
                lemma_wf_insert(entries, i as int, (name, node));
            }
        }
        children.entries.insert(i, (name, node));
    }

    /// The node for `components[k]` in a chain of new directories leading
    /// to the declared path `components`.
    fn build_chain(components: &Vec<String>, k: usize, path_type: PathType, props: P) -> (node:
        Node<P>)
        requires
            k < components@.len(),
        ensures
            entries_view(seq![(components@[k as int], node)]) == chain_view(
                names_view(components@).skip(k as int),
                new_info(path_type, props),
            ),
            node_wf(node),
        decreases components@.len() - k,
    {
        let ghost comps = names_view(components@).skip(k as int);
        let ghost leaf = new_info(path_type, props);
        let ghost name = components@[k as int]@;
        assert(comps[0] == name);
        if k == components.len() - 1 {
            let node = Node::new(path_type, props);
            let ghost single = seq![(components@[k as int], node)];
            proof {
                assert(index_of_name(Seq::<(String, Node<P>)>::empty(), name) == -1);
                assert(single.drop_last() =~= Seq::<(String, Node<P>)>::empty());
                assert(single.last() == single[0]);
                assert forall|p: Components| #[trigger] lookup(single, p) == (if p == seq![name] {
                    Some(leaf)
                } else {
                    None::<Info<P>>
                }) by {
                    if p.len() > 0 {
                        assert(index_of_name(single.drop_last(), p[0]) == -1);
                        if p.len() == 1 && p[0] == name {
                            assert(p =~= seq![name]);
                        }
                        if p.len() >= 2 && p[0] == name {
                            if let fs::Entry::Dir(d) = node {
                                let q = p.drop_first();
                                assert(d.children.entries@ =~= Seq::<(String, Node<P>)>::empty());
                                assert(index_of_name(d.children.entries@, q[0]) == -1);
                                assert(lookup(d.children.entries@, q) is None);
                            }
                        }
                    }
                }
                assert forall|p: Components| #[trigger]
                    chain_view(comps, leaf).contains_key(p) == (p == seq![name]) by {
                    if p.len() == 1 && p[0] == name {
                        assert(p =~= comps.take(1));
                    }
                    if chain_view(comps, leaf).contains_key(p) {
                        assert(p =~= seq![name]);
                    }
                }
                assert(entries_view(single) =~= chain_view(comps, leaf));
            }
            node
        } else {
            let child = Self::build_chain(components, k + 1, path_type, props);
            let mut children = NodeChildren::new();
            let child_name = components[k + 1].clone();
            children.entries.push((child_name, child));
            let node = fs::Entry::Dir(Dir { children, kind: DirKind::Empty(None) });
            proof {
                let single = seq![(components@[k as int], node)];
                let inner = seq![(components@[k as int + 1], child)];
                let rest = names_view(components@).skip(k + 1);
                assert(children.entries@ =~= inner);
                assert(rest =~= comps.drop_first());
                assert(index_of_name(Seq::<(String, Node<P>)>::empty(), name) == -1);
                assert(single.drop_last() =~= Seq::<(String, Node<P>)>::empty());
                assert forall|p: Components| #[trigger] lookup(single, p) == (if p.len() > 0
                    && p[0] == name {
                    if p.len() == 1 {
                        Some(intermediate_info::<P>())
                    } else {
                        lookup(inner, p.drop_first())
                    }
                } else {
                    None::<Info<P>>
                }) by {
                    if p.len() > 0 {
                        assert(index_of_name(single.drop_last(), p[0]) == -1);
                    }
                }
                assert forall|p: Components| #[trigger]
                    chain_view(comps, leaf).contains_key(p) == (p.len() > 0 && p[0] == name && (
                    p.len() == 1 || chain_view(rest, leaf).contains_key(p.drop_first()))) by {
                    if chain_view(comps, leaf).contains_key(p) {
                        assert(p[0] == comps.take(p.len() as int)[0]);
                        if p.len() >= 2 {
                            assert(p.drop_first() =~= rest.take(p.len() - 1));
                        }
                    }
                    if p.len() > 0 && p[0] == name {
                        if p.len() == 1 {
                            assert(p =~= comps.take(1));
                        } else if chain_view(rest, leaf).contains_key(p.drop_first()) {
                            let q = p.drop_first();
                            assert(q == rest.take(p.len() - 1));
                            assert forall|j: int| 0 <= j < p.len() implies p[j] == comps.take(
                                p.len() as int,
                            )[j] by {
                                if j > 0 {
                                    assert(p[j] == q[j - 1]);
                                    assert(q[j - 1] == rest[j - 1]);
                                }
                            }
                            assert(p =~= comps.take(p.len() as int));
                        }
                    }
                }
                assert forall|p: Components| #[trigger]
                    entries_view(single).contains_key(p) implies entries_view(single)[p]
                    == chain_view(comps, leaf)[p] by {
                    if p.len() >= 2 {
                        let q = p.drop_first();
                        assert(entries_view(inner).contains_key(q));
                        assert(entries_view(inner)[q] == chain_view(rest, leaf)[q]);
                    }
                }
                assert(entries_view(single) =~= chain_view(comps, leaf));
            }
            node
        }
    }

    /// Declares a directory again: properties declared before are an
    /// error; otherwise the directory takes the new properties when it owns
    /// its contents, and stays as it was when it does not.
    fn merge_dirs(existing_kind: &mut DirKind<P>, owns_contents: bool, props: P) -> (res: Result<
        (),
        TreeError<P>,
    >)
        ensures
            match kind_props(*old(existing_kind)) {
                Some(existing) => res == Err::<(), TreeError<P>>(TreeError::ExistingProps(existing))
                    && *final(existing_kind) == *old(existing_kind),
                None => res is Ok && *final(existing_kind) == if owns_contents {
                    DirKind::OwnsContents(props)
                } else {
                    *old(existing_kind)
                },
            },
    {
        match existing_kind {
            DirKind::OwnsContents(existing_props) => {
                return Err(TreeError::ExistingProps(*existing_props));
            },
            DirKind::Empty(Some(existing_props)) => {
                return Err(TreeError::ExistingProps(*existing_props));
            },
            DirKind::Empty(None) => {},
        }
        if owns_contents {
            *existing_kind = DirKind::OwnsContents(props);
        }
        Ok(())
    }

    /// Whether adding `path` with `path_type` would meet a file declared
    /// before with the same type (see `spec_add_path_unsupported`), which
    /// `add_path` does not take.
    pub fn add_path_unsupported(&self, path: &str, path_type: PathType) -> (res: bool)
        ensures
            res == spec_add_path_unsupported(self@, path@, path_type),
    {
        match Self::path_to_components(path) {
            Ok(components) => {
                if components.len() == 0 {
                    return false;
                }
                assert(names_view(components@).skip(0) =~= names_view(components@));
                Self::unsupported_below(&self.root, &components, 0, path_type)
            },
            Err(_) => false,
        }
    }

    /// Whether adding `components[k..]` below `children` would meet a file
    /// declared before with the same type.
    fn unsupported_below(
        children: &NodeChildren<P>,
        components: &Vec<String>,
        k: usize,
        path_type: PathType,
    ) -> (res: bool)
        requires
            k < components@.len(),
        ensures
            res == spec_add_unsupported(children@, names_view(components@).skip(k as int), path_type),
        decreases components@.len() - k,
    {
        let ghost comps = names_view(components@).skip(k as int);
        assert(comps[0] == components@[k as int]@);
        match children.get(components[k].as_str()) {
            None => false,
            Some(node) => {
                if k == components.len() - 1 {
                    match (node, path_type) {
                        (fs::Entry::File(f), fs::Entry::File(file_type)) => same_file_type(
                            f.file_type,
                            file_type,
                        ),
                        _ => false,
                    }
                } else {
                    match node {
                        fs::Entry::Dir(d) => {
                            assert(comps.drop_first() =~= names_view(components@).skip(k + 1));
                            Self::unsupported_below(&d.children, components, k + 1, path_type)
                        },
                        fs::Entry::File(_) => false,
                    }
                }
            },
        }
    }
}

/// Whether both are the same kind of file.
fn same_file_type(a: crate::decl::FileType, b: crate::decl::FileType) -> (res: bool)
    ensures
        res == (a == b),
{
    match (a, b) {
        (crate::decl::FileType::Regular, crate::decl::FileType::Regular) => true,
        (crate::decl::FileType::Symlink, crate::decl::FileType::Symlink) => true,
        (crate::decl::FileType::Fifo, crate::decl::FileType::Fifo) => true,
        (crate::decl::FileType::CharDevice, crate::decl::FileType::CharDevice) => true,
        (crate::decl::FileType::BlockDevice, crate::decl::FileType::BlockDevice) => true,
        _ => false,
    }
}

} // verus!
