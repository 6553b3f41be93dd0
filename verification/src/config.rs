//! The configuration: which modules exist, which are enabled, and the paths
//! each module declares.
use vstd::prelude::*;

use crate::decl::{self, DirProps, FileType, Owner, PathType, Props, StorageClass};
use crate::declarative::{OwnerView, PropertiesView};
use crate::decl::tmpfiles::{
    add_systemd_tmpfiles, lemma_tmpfiles_fold_keeps, spec_parse_tmpfiles, spec_tmpfiles_fold,
    tmpfiles_error_matches, tmpfiles_props, DirectiveKind, TmpfilesError,
};
use crate::decl::tree::laws::{lemma_add_prefix_closed, prefix_closed};
use crate::decl::tree::{
    path_error_matches, spec_add, spec_add_path_unsupported, spec_path_components, Components, Info,
    TreeError,
};
use crate::text::{chars_lt, str_eq, str_lt};

verus! {

/// Whether each module is enabled, by module name.
pub type EnabledModules = Vec<(String, bool)>;

/// The modules available to users and to the system, and which of them are
/// enabled, by name in the order of names.
pub struct Config {
    pub available_modules: AvailableModules,
    pub enabled_modules: EnabledModules,
    pub users: Vec<(String, UserConfig)>,
}

/// The modules that can be enabled, by name.
pub struct AvailableModules {
    pub user: Vec<(String, Module)>,
    pub system: Vec<(String, Module)>,
}

/// A user: ad hoc modules of their own, their home, and which of the
/// available user modules they enable.
pub struct UserConfig {
    pub adhoc: Vec<(String, Module)>,
    pub home: String,
    pub modules: EnabledModules,
}

/// The paths of a module by how their data is kept.
pub struct Module {
    pub cache: Paths,
    pub data: Paths,
    pub ephemeral: Paths,
}

/// Declared paths by type.
pub struct Paths {
    pub directories: Vec<String>,
    pub files: Vec<String>,
    pub symlinks: Vec<String>,
}

/// A declared path with its type and properties.
pub type ItemView = (Seq<char>, PathType, PropertiesView);

/// The view of declared paths borrowed from the configuration.
pub open spec fn str_items_view(items: Seq<(&str, PathType, Props)>) -> Seq<ItemView> {
    items.map_values(|it: (&str, PathType, Props)| (it.0@, it.1, it.2@))
}

/// The view of declared paths.
pub open spec fn items_view(items: Seq<(String, PathType, Props)>) -> Seq<ItemView> {
    items.map_values(|it: (String, PathType, Props)| (it.0@, it.1, it.2@))
}

/// Each path of the list, with the type and properties.
pub open spec fn path_list_view(paths: Seq<String>, path_type: PathType, props: PropertiesView) -> Seq<
    ItemView,
> {
    paths.map_values(|p: String| (p@, path_type, props))
}

/// The paths of a set: directories, which own their contents, then regular
/// files, then symlinks.
pub open spec fn path_set_view(path_set: Paths, props: PropertiesView) -> Seq<ItemView> {
    path_list_view(path_set.directories@, PathType::Dir(DirProps { owns_contents: true }), props)
        + path_list_view(path_set.files@, PathType::File(FileType::Regular), props)
        + path_list_view(path_set.symlinks@, PathType::File(FileType::Symlink), props)
}

/// The paths of a module: its cache, then its data, then its ephemeral
/// paths, all owned by `owner`.
pub open spec fn module_view(module: Module, owner: OwnerView) -> Seq<ItemView> {
    path_set_view(module.cache, PropertiesView { owner, storage_class: StorageClass::Cache })
        + path_set_view(module.data, PropertiesView { owner, storage_class: StorageClass::Data })
        + path_set_view(
        module.ephemeral,
        PropertiesView { owner, storage_class: StorageClass::Ephemeral },
    )
}

/// The position of the first module named `name`, or -1 where none is.
pub open spec fn module_index(modules: Seq<(String, Module)>, name: Seq<char>) -> int
    decreases modules.len(),
{
    if modules.len() == 0 {
        -1
    } else {
        let k = module_index(modules.drop_last(), name);
        if k >= 0 {
            k
        } else if modules.last().0@ == name {
            modules.len() - 1
        } else {
            -1
        }
    }
}

/// The paths of a user's ad hoc modules, in order.
pub open spec fn adhoc_view(adhoc: Seq<(String, Module)>, user: Seq<char>) -> Seq<ItemView>
    decreases adhoc.len(),
{
    if adhoc.len() == 0 {
        seq![]
    } else {
        adhoc_view(adhoc.drop_last(), user) + module_view(
            adhoc.last().1,
            OwnerView::AdhocUser { name: adhoc.last().0@, user },
        )
    }
}

/// The owner of a named module: of `user` where there is one, of the
/// system otherwise.
pub open spec fn module_owner(name: Seq<char>, maybe_user: Option<Seq<char>>, enabled: bool) -> OwnerView {
    match maybe_user {
        Some(user) => OwnerView::User { name, user, enabled },
        None => OwnerView::System { name, enabled },
    }
}

/// The paths of the named modules, enabled or not, looked up among the
/// available ones, in order.
pub open spec fn enabled_view(
    modules: Seq<(String, bool)>,
    available: Seq<(String, Module)>,
    maybe_user: Option<Seq<char>>,
) -> Seq<ItemView>
    decreases modules.len(),
{
    if modules.len() == 0 {
        seq![]
    } else {
        let (name, enabled) = modules.last();
        enabled_view(modules.drop_last(), available, maybe_user) + module_view(
            available[module_index(available, name@)].1,
            module_owner(name@, maybe_user, enabled),
        )
    }
}

/// `path` below `base`, as `Path::join` gives it: an absolute path stands
/// for itself; otherwise a slash separates the two unless `base` is empty
/// or ends in one.
pub open spec fn join_path(base: Seq<char>, path: Seq<char>) -> Seq<char> {
    if path.len() > 0 && path[0] == '/' {
        path
    } else if base.len() == 0 || base.last() == '/' {
        base + path
    } else {
        base + seq!['/'] + path
    }
}

/// The paths below `home`.
pub open spec fn joined(items: Seq<ItemView>, home: Seq<char>) -> Seq<ItemView> {
    items.map_values(|it: ItemView| (join_path(home, it.0), it.1, it.2))
}

/// The paths of one user: the ad hoc modules, then the named ones, below
/// their home.
pub open spec fn user_view(user: (String, UserConfig), available: Seq<(String, Module)>) -> Seq<ItemView> {
    joined(
        adhoc_view(user.1.adhoc@, user.0@) + enabled_view(user.1.modules@, available, Some(user.0@)),
        user.1.home@,
    )
}

/// The paths of the users, in order.
pub open spec fn users_view(users: Seq<(String, UserConfig)>, available: Seq<(String, Module)>) -> Seq<
    ItemView,
>
    decreases users.len(),
{
    if users.len() == 0 {
        seq![]
    } else {
        users_view(users.drop_last(), available) + user_view(users.last(), available)
    }
}

/// Every declared path of the configuration: those of the users, then
/// those of the system modules.
pub open spec fn spec_config_paths(config: Config) -> Seq<ItemView> {
    users_view(config.users@, config.available_modules.user@) + enabled_view(
        config.enabled_modules@,
        config.available_modules.system@,
        None,
    )
}

/// Every module named as enabled or not is available.
pub open spec fn modules_available(config: Config) -> bool {
    &&& forall|u: int, m: int|
        0 <= u < config.users@.len() && 0 <= m < config.users@[u].1.modules@.len()
            ==> module_index(
            config.available_modules.user@,
            #[trigger] config.users@[u].1.modules@[m].0@,
        ) >= 0
    &&& forall|m: int|
        0 <= m < config.enabled_modules@.len() ==> module_index(
            config.available_modules.system@,
            #[trigger] config.enabled_modules@[m].0@,
        ) >= 0
}

proof fn lemma_module_index(modules: Seq<(String, Module)>, name: Seq<char>)
    ensures
        -1 <= module_index(modules, name) < modules.len(),
        module_index(modules, name) >= 0 ==> modules[module_index(modules, name)].0@ == name,
        forall|j: int|
            0 <= j < modules.len() && (module_index(modules, name) < 0 || j < module_index(
                modules,
                name,
            )) ==> #[trigger] modules[j].0@ != name,
    decreases modules.len(),
{
    if modules.len() > 0 {
        lemma_module_index(modules.drop_last(), name);
        assert forall|j: int| 0 <= j < modules.len() - 1 implies #[trigger] modules[j]
            == modules.drop_last()[j] by {}
    }
}

/// The module named `name`, if one is available.
fn find_module<'a>(modules: &'a Vec<(String, Module)>, name: &str) -> (res: Option<&'a Module>)
    ensures
        match res {
            Some(m) => module_index(modules@, name@) >= 0 && *m == modules@[module_index(
                modules@,
                name@,
            )].1,
            None => module_index(modules@, name@) < 0,
        },
{
    proof {
        lemma_module_index(modules@, name@);
    }
    let mut i: usize = 0;
    while i < modules.len()
        invariant
            0 <= i <= modules@.len(),
            forall|j: int| 0 <= j < i ==> #[trigger] modules@[j].0@ != name@,
            -1 <= module_index(modules@, name@) < modules@.len(),
            module_index(modules@, name@) >= 0 ==> modules@[module_index(modules@, name@)].0@
                == name@,
            forall|j: int|
                0 <= j < modules@.len() && (module_index(modules@, name@) < 0 || j < module_index(
                    modules@,
                    name@,
                )) ==> #[trigger] modules@[j].0@ != name@,
        decreases modules@.len() - i,
    {
        if str_eq(modules[i].0.as_str(), name) {
            return Some(&modules[i].1);
        }
        i += 1;
    }
    None
}

/// Appends the paths of `paths`, each with `path_type` and `props`.
fn push_path_list<'a>(
    out: &mut Vec<(&'a str, PathType, Props<'a>)>,
    paths: &'a Vec<String>,
    path_type: PathType,
    props: Props<'a>,
)
    ensures
        str_items_view(final(out)@) == str_items_view(old(out)@) + path_list_view(
            paths@,
            path_type,
            props@,
        ),
{
    let ghost start = str_items_view(out@);
    let mut i: usize = 0;
    while i < paths.len()
        invariant
            0 <= i <= paths@.len(),
            str_items_view(out@) == start + path_list_view(paths@.take(i as int), path_type, props@),
        decreases paths@.len() - i,
    {
        let ghost before = out@;
        out.push((paths[i].as_str(), path_type, props));
        proof {
            assert(str_items_view(out@) =~= str_items_view(before).push(
                (paths@[i as int]@, path_type, props@),
            ));
            assert(path_list_view(paths@.take(i + 1), path_type, props@) =~= path_list_view(
                paths@.take(i as int),
                path_type,
                props@,
            ).push((paths@[i as int]@, path_type, props@)));
        }
        i += 1;
    }
    assert(paths@.take(i as int) =~= paths@);
}

/// The paths of a set with their types (see `path_set_view`).
fn path_set_to_paths<'a>(path_set: &'a Paths, props: Props<'a>) -> (res: Vec<
    (&'a str, PathType, Props<'a>),
>)
    ensures
        str_items_view(res@) == path_set_view(*path_set, props@),
{
    let mut out = Vec::new();
    assert(str_items_view(out@) =~= Seq::<ItemView>::empty());
    push_path_list(
        &mut out,
        &path_set.directories,
        PathType::Dir(DirProps { owns_contents: true }),
        props,
    );
    push_path_list(&mut out, &path_set.files, PathType::File(FileType::Regular), props);
    push_path_list(&mut out, &path_set.symlinks, PathType::File(FileType::Symlink), props);
    assert(str_items_view(out@) =~= path_set_view(*path_set, props@));
    out
}

/// Appends `more` to `out`.
fn append_items<'a>(
    out: &mut Vec<(&'a str, PathType, Props<'a>)>,
    more: Vec<(&'a str, PathType, Props<'a>)>,
)
    ensures
        str_items_view(final(out)@) == str_items_view(old(out)@) + str_items_view(more@),
{
    let mut more = more;
    let ghost a = out@;
    let ghost b = more@;
    out.append(&mut more);
    assert(str_items_view(out@) =~= str_items_view(a) + str_items_view(b));
}

/// The paths of a module owned by `owner` (see `module_view`).
fn module_to_paths<'a>(module: &'a Module, owner: Owner<'a>) -> (res: Vec<
    (&'a str, PathType, Props<'a>),
>)
    ensures
        str_items_view(res@) == module_view(*module, owner@),
{
    let mut out = path_set_to_paths(
        &module.cache,
        Props { owner, storage_class: StorageClass::Cache },
    );
    append_items(
        &mut out,
        path_set_to_paths(&module.data, Props { owner, storage_class: StorageClass::Data }),
    );
    append_items(
        &mut out,
        path_set_to_paths(&module.ephemeral, Props { owner, storage_class: StorageClass::Ephemeral }),
    );
    out
}

/// `path` below `base` (see `join_path`).
pub fn join(base: &str, path: &str) -> (res: String)
    ensures
        res@ == join_path(base@, path@),
{
    if path.unicode_len() > 0 && path.get_char(0) == '/' {
        return path.to_owned();
    }
    let n = base.unicode_len();
    let mut joined = base.to_owned();
    if !(n == 0 || base.get_char(n - 1) == '/') {
        joined.append("/");
        proof {
            reveal_strlit("/");
        }
    }
    joined.append(path);
    joined
}

/// Names in strictly ascending order (by `chars_lt`), so that each appears
/// once: the order of the maps of a configuration file.
pub open spec fn names_ascending<T>(entries: Seq<(String, T)>) -> bool {
    forall|i: int| 0 < i < entries.len() ==> chars_lt(entries[i - 1].0@, #[trigger] entries[i].0@)
}

/// Whether the names of `entries` are in strictly ascending order (see
/// `names_ascending`).
fn in_order<T>(entries: &Vec<(String, T)>) -> (res: bool)
    ensures
        res == names_ascending(entries@),
{
    let mut i: usize = 1;
    while i < entries.len()
        invariant
            1 <= i,
            forall|k: int| 0 < k < i && k < entries@.len() ==> chars_lt(
                entries@[k - 1].0@,
                #[trigger] entries@[k].0@,
            ),
        decreases entries@.len() - i,
    {
        if !str_lt(entries[i - 1].0.as_str(), entries[i].0.as_str()) {
            return false;
        }
        i += 1;
    }
    true
}

impl Config {
    /// Every name list in strictly ascending order, as the maps of a
    /// configuration file give them: modules, users, and each user's ad hoc
    /// modules and enabled modules.
    pub open spec fn wf(&self) -> bool {
        &&& names_ascending(self.available_modules.user@)
        &&& names_ascending(self.available_modules.system@)
        &&& names_ascending(self.enabled_modules@)
        &&& names_ascending(self.users@)
        &&& forall|u: int|
            0 <= u < self.users@.len() ==> names_ascending((#[trigger] self.users@[u]).1.adhoc@)
                && names_ascending(self.users@[u].1.modules@)
    }

    /// Whether every name list is in strictly ascending order (see `wf`).
    pub fn names_in_order(&self) -> (res: bool)
        ensures
            res == self.wf(),
    {
        if !(in_order(&self.available_modules.user) && in_order(&self.available_modules.system)
            && in_order(&self.enabled_modules) && in_order(&self.users)) {
            return false;
        }
        let mut u: usize = 0;
        while u < self.users.len()
            invariant
                0 <= u <= self.users@.len(),
                forall|v: int|
                    0 <= v < u ==> names_ascending((#[trigger] self.users@[v]).1.adhoc@)
                        && names_ascending(self.users@[v].1.modules@),
            decreases self.users@.len() - u,
        {
            if !(in_order(&self.users[u].1.adhoc) && in_order(&self.users[u].1.modules)) {
                return false;
            }
            u += 1;
        }
        true
    }

    /// Whether every module named as enabled or not is available (see
    /// `modules_available`), which the functions that list the declared
    /// paths need.
    pub fn modules_are_available(&self) -> (res: bool)
        ensures
            res == modules_available(*self),
    {
        let mut u: usize = 0;
        while u < self.users.len()
            invariant
                0 <= u <= self.users@.len(),
                forall|v: int, m: int|
                    0 <= v < u && 0 <= m < self.users@[v].1.modules@.len() ==> module_index(
                        self.available_modules.user@,
                        #[trigger] self.users@[v].1.modules@[m].0@,
                    ) >= 0,
            decreases self.users@.len() - u,
        {
            let modules = &self.users[u].1.modules;
            let mut m: usize = 0;
            while m < modules.len()
                invariant
                    0 <= u < self.users@.len(),
                    *modules == self.users@[u as int].1.modules,
                    0 <= m <= modules@.len(),
                    forall|v: int, k: int|
                        0 <= v < u && 0 <= k < self.users@[v].1.modules@.len() ==> module_index(
                            self.available_modules.user@,
                            #[trigger] self.users@[v].1.modules@[k].0@,
                        ) >= 0,
                    forall|k: int|
                        0 <= k < m ==> module_index(
                            self.available_modules.user@,
                            #[trigger] modules@[k].0@,
                        ) >= 0,
                decreases modules@.len() - m,
            {
                if find_module(&self.available_modules.user, modules[m].0.as_str()).is_none() {
                    return false;
                }
                m += 1;
            }
            u += 1;
        }
        let mut m: usize = 0;
        while m < self.enabled_modules.len()
            invariant
                0 <= m <= self.enabled_modules@.len(),
                forall|v: int, k: int|
                    0 <= v < self.users@.len() && 0 <= k < self.users@[v].1.modules@.len()
                        ==> module_index(
                        self.available_modules.user@,
                        #[trigger] self.users@[v].1.modules@[k].0@,
                    ) >= 0,
                forall|k: int|
                    0 <= k < m ==> module_index(
                        self.available_modules.system@,
                        #[trigger] self.enabled_modules@[k].0@,
                    ) >= 0,
            decreases self.enabled_modules@.len() - m,
        {
            if find_module(&self.available_modules.system, self.enabled_modules[m].0.as_str()).is_none() {
                return false;
            }
            m += 1;
        }
        true
    }

    /// Every declared path with its type and properties (see
    /// `spec_config_paths`), the properties borrowing the names of the
    /// configuration.
    pub fn paths<'a>(&'a self) -> (res: Vec<(String, PathType, Props<'a>)>)
        requires
            modules_available(*self),
            self.wf(),
        ensures
            items_view(res@) == spec_config_paths(*self),
    {
        let mut out: Vec<(String, PathType, Props<'a>)> = Vec::new();
        let mut u: usize = 0;
        assert(items_view(out@) =~= Seq::<ItemView>::empty());
        while u < self.users.len()
            invariant
                modules_available(*self),
                0 <= u <= self.users@.len(),
                items_view(out@) == users_view(
                    self.users@.take(u as int),
                    self.available_modules.user@,
                ),
            decreases self.users@.len() - u,
        {
            let user_name = self.users[u].0.as_str();
            let user_config = &self.users[u].1;
            let mut user_paths: Vec<(&'a str, PathType, Props<'a>)> = Vec::new();
            let mut a: usize = 0;
            assert(str_items_view(user_paths@) =~= Seq::<ItemView>::empty());
            while a < user_config.adhoc.len()
                invariant
                    0 <= a <= user_config.adhoc@.len(),
                    str_items_view(user_paths@) == adhoc_view(
                        user_config.adhoc@.take(a as int),
                        user_name@,
                    ),
                decreases user_config.adhoc@.len() - a,
            {
                let owner = Owner::AdhocUser { name: user_config.adhoc[a].0.as_str(), user: user_name };
                append_items(&mut user_paths, module_to_paths(&user_config.adhoc[a].1, owner));
                assert(user_config.adhoc@.take(a + 1).drop_last() =~= user_config.adhoc@.take(
                    a as int,
                ));
                a += 1;
            }
            assert(user_config.adhoc@.take(a as int) =~= user_config.adhoc@);
            let ghost adhoc_part = str_items_view(user_paths@);
            let mut m: usize = 0;
            assert(adhoc_part + enabled_view(user_config.modules@.take(0), self.available_modules.user@, Some(user_name@)) =~= adhoc_part);
            while m < user_config.modules.len()
                invariant
                    modules_available(*self),
                    u < self.users@.len(),
                    *user_config == self.users@[u as int].1,
                    0 <= m <= user_config.modules@.len(),
                    str_items_view(user_paths@) == adhoc_part + enabled_view(
                        user_config.modules@.take(m as int),
                        self.available_modules.user@,
                        Some(user_name@),
                    ),
                decreases user_config.modules@.len() - m,
            {
                let name = user_config.modules[m].0.as_str();
                let enabled = user_config.modules[m].1;
                assert(module_index(self.available_modules.user@, user_config.modules@[m as int].0@) >= 0);
                let module = match find_module(&self.available_modules.user, name) {
                    Some(module) => module,
                    None => {
                        assert(false);
                        return out;
                    },
                };
                let owner = Owner::User { name, user: user_name, enabled };
                append_items(&mut user_paths, module_to_paths(module, owner));
                assert(user_config.modules@.take(m + 1).drop_last() =~= user_config.modules@.take(
                    m as int,
                ));
                m += 1;
            }
            assert(user_config.modules@.take(m as int) =~= user_config.modules@);
            let ghost user_part = str_items_view(user_paths@);
            let home = user_config.home.as_str();
            let mut k: usize = 0;
            let ghost start = items_view(out@);
            while k < user_paths.len()
                invariant
                    0 <= k <= user_paths@.len(),
                    user_part == str_items_view(user_paths@),
                    items_view(out@) == start + joined(user_part.take(k as int), home@),
                decreases user_paths@.len() - k,
            {
                let (path, path_type, props) = user_paths[k];
                let ghost before = out@;
                out.push((join(home, path), path_type, props));
                proof {
                    assert(items_view(out@) =~= items_view(before).push(
                        (join_path(home@, path@), path_type, props@),
                    ));
                    assert(user_part[k as int] == (path@, path_type, props@));
                    assert(joined(user_part.take(k + 1), home@) =~= joined(
                        user_part.take(k as int),
                        home@,
                    ).push((join_path(home@, path@), path_type, props@)));
                }
                k += 1;
            }
            proof {
                assert(user_part.take(k as int) =~= user_part);
                assert(self.users@.take(u + 1).drop_last() =~= self.users@.take(u as int));
                assert(self.users@.take(u + 1).last() == self.users@[u as int]);
            }
            u += 1;
        }
        assert(self.users@.take(u as int) =~= self.users@);
        let ghost users_part = items_view(out@);
        let mut system_paths: Vec<(&'a str, PathType, Props<'a>)> = Vec::new();
        let mut s: usize = 0;
        assert(str_items_view(system_paths@) =~= Seq::<ItemView>::empty());
        while s < self.enabled_modules.len()
            invariant
                modules_available(*self),
                0 <= s <= self.enabled_modules@.len(),
                str_items_view(system_paths@) == enabled_view(
                    self.enabled_modules@.take(s as int),
                    self.available_modules.system@,
                    None,
                ),
            decreases self.enabled_modules@.len() - s,
        {
            let name = self.enabled_modules[s].0.as_str();
            let enabled = self.enabled_modules[s].1;
            assert(module_index(self.available_modules.system@, self.enabled_modules@[s as int].0@) >= 0);
            let module = match find_module(&self.available_modules.system, name) {
                Some(module) => module,
                None => {
                    assert(false);
                    return out;
                },
            };
            append_items(&mut system_paths, module_to_paths(module, Owner::System { name, enabled }));
            assert(self.enabled_modules@.take(s + 1).drop_last() =~= self.enabled_modules@.take(
                s as int,
            ));
            s += 1;
        }
        assert(self.enabled_modules@.take(s as int) =~= self.enabled_modules@);
        let ghost system_part = str_items_view(system_paths@);
        let mut k: usize = 0;
        while k < system_paths.len()
            invariant
                0 <= k <= system_paths@.len(),
                system_part == str_items_view(system_paths@),
                items_view(out@) == users_part + system_part.take(k as int),
            decreases system_paths@.len() - k,
        {
            let (path, path_type, props) = system_paths[k];
            let ghost before = out@;
            out.push((path.to_owned(), path_type, props));
            proof {
                assert(items_view(out@) =~= items_view(before).push((path@, path_type, props@)));
                assert(system_part[k as int] == (path@, path_type, props@));
                assert(system_part.take(k + 1) =~= system_part.take(k as int).push(
                    (path@, path_type, props@),
                ));
            }
            k += 1;
        }
        assert(system_part.take(k as int) =~= system_part);
        out
    }
}

/// Why the declared paths could not be collected into a tree.
#[derive(Debug)]
pub enum ConfigError<'a> {
    /// The tree refused a declared path.
    AddPath(String, TreeError<Props<'a>>),
    /// A file is declared again with the same type.
    DuplicateFile(String),
    /// The systemd-tmpfiles paths could not be declared.
    Tmpfiles(TmpfilesError<'a>),
}

/// What the tree becomes when `item` is declared: `None` where declaring
/// stops with an error.
pub open spec fn spec_paths_step<'a>(
    view: Map<Components, Info<Props<'a>>>,
    item: (String, PathType, Props<'a>),
) -> Option<Map<Components, Info<Props<'a>>>> {
    let (path, path_type, props) = item;
    if spec_add_path_unsupported(view, path@, path_type) {
        None
    } else {
        match spec_path_components(path@) {
            Err(_) => None,
            Ok(comps) => match spec_add(view, comps, path_type, props) {
                Ok(added) => Some(added),
                Err(_) => None,
            },
        }
    }
}

/// The tree after declaring `items` in order, and the position of the item
/// where declaring stopped, if it did.
pub open spec fn spec_paths_fold<'a>(
    view: Map<Components, Info<Props<'a>>>,
    items: Seq<(String, PathType, Props<'a>)>,
) -> (Map<Components, Info<Props<'a>>>, Option<int>)
    decreases items.len(),
{
    if items.len() == 0 {
        (view, None)
    } else {
        let (before, stopped) = spec_paths_fold(view, items.drop_last());
        if stopped is Some {
            (before, stopped)
        } else {
            match spec_paths_step(before, items.last()) {
                Some(after) => (after, None),
                None => (before, Some(items.len() - 1)),
            }
        }
    }
}

/// The error that stops declaring `item` into a tree whose paths are
/// `view`.
pub open spec fn config_error_matches<'a>(
    error: ConfigError<'a>,
    view: Map<Components, Info<Props<'a>>>,
    item: (String, PathType, Props<'a>),
) -> bool {
    let (path, path_type, props) = item;
    if spec_add_path_unsupported(view, path@, path_type) {
        error matches ConfigError::DuplicateFile(p) && p@ == path@
    } else {
        error matches ConfigError::AddPath(p, e) && p@ == path@ && match spec_path_components(
            path@,
        ) {
            Err(pe) => path_error_matches(e, pe),
            Ok(comps) => spec_add(view, comps, path_type, props) == Err::<
                Map<Components, Info<Props<'a>>>,
                TreeError<Props<'a>>,
            >(e),
        }
    }
}

/// What declaring `items` gives: the tree, and an error exactly where
/// declaring stopped.
pub open spec fn paths_added<'a>(
    before: Map<Components, Info<Props<'a>>>,
    items: Seq<(String, PathType, Props<'a>)>,
    after: Map<Components, Info<Props<'a>>>,
    res: Result<(), ConfigError<'a>>,
) -> bool {
    let (view, stopped) = spec_paths_fold(before, items);
    &&& after == view
    &&& res is Ok <==> stopped is None
    &&& res is Err ==> 0 <= stopped->Some_0 < items.len()
    &&& res matches Err(error) ==> config_error_matches(error, view, items[stopped->Some_0])
}

proof fn lemma_paths_fold_stays<'a>(
    view: Map<Components, Info<Props<'a>>>,
    items: Seq<(String, PathType, Props<'a>)>,
    i: int,
    n: int,
)
    requires
        0 <= i < n <= items.len(),
        spec_paths_fold(view, items.take(i + 1)).1 == Some(i),
    ensures
        spec_paths_fold(view, items.take(n)) == spec_paths_fold(view, items.take(i + 1)),
    decreases n,
{
    if n > i + 1 {
        lemma_paths_fold_stays(view, items, i, n - 1);
        assert(items.take(n).drop_last() =~= items.take(n - 1));
    }
}

/// Declares `items` in order (see `spec_paths_fold`); on an error, the
/// items declared before it stay declared.
pub fn add_paths<'a>(tree: &mut decl::Tree<'a>, items: &Vec<(String, PathType, Props<'a>)>) -> (res:
    Result<(), ConfigError<'a>>)
    ensures
        paths_added(old(tree)@, items@, final(tree)@, res),
{
    let mut i: usize = 0;
    while i < items.len()
        invariant
            0 <= i <= items@.len(),
            spec_paths_fold(old(tree)@, items@.take(i as int)) == (tree@, None::<int>),
        decreases items@.len() - i,
    {
        let (path, path_type, props) = &items[i];
        proof {
            assert(items@.take(i + 1).drop_last() =~= items@.take(i as int));
            assert(items@.take(i + 1).last() == items@[i as int]);
        }
        if tree.add_path_unsupported(path.as_str(), *path_type) {
            proof {
                lemma_paths_fold_stays(old(tree)@, items@, i as int, items@.len() as int);
                assert(items@.take(items@.len() as int) =~= items@);
            }
            return Err(ConfigError::DuplicateFile(path.clone()));
        }
        match tree.add_path(path.as_str(), *path_type, *props) {
            Ok(()) => {},
            Err(e) => {
                proof {
                    lemma_paths_fold_stays(old(tree)@, items@, i as int, items@.len() as int);
                    assert(items@.take(items@.len() as int) =~= items@);
                }
                return Err(ConfigError::AddPath(path.clone(), e));
            },
        }
        i += 1;
    }
    assert(items@.take(i as int) =~= items@);
    Ok(())
}

impl Config {
    /// Declares every path of the configuration in the order of `paths`
    /// (see `add_paths`).
    pub fn add_to_tree<'a>(&'a self, tree: &mut decl::Tree<'a>) -> (res: Result<(), ConfigError<'a>>)
        requires
            modules_available(*self),
            self.wf(),
        ensures
            exists|items: Seq<(String, PathType, Props<'a>)>|
                #![trigger items_view(items)]
                items_view(items) == spec_config_paths(*self) && paths_added(
                    old(tree)@,
                    items,
                    final(tree)@,
                    res,
                ),
    {
        let items = self.paths();
        add_paths(tree, &items)
    }

    /// The tree of every path of the configuration, then of the paths the
    /// systemd-tmpfiles configuration `tmpfiles_config` creates (see
    /// `add_to_tree` and `add_systemd_tmpfiles`).
    pub fn to_tree<'a>(&'a self, tmpfiles_config: &str) -> (res: Result<decl::Tree<'a>, ConfigError<'a>>)
        requires
            modules_available(*self),
            self.wf(),
        ensures
            exists|items: Seq<(String, PathType, Props<'a>)>|
                #![trigger items_view(items)]
                items_view(items) == spec_config_paths(*self) && {
                    let (declared, stopped) = spec_paths_fold(
                        Map::<Components, Info<Props<'a>>>::empty(),
                        items,
                    );
                    &&& stopped is Some ==> (res matches Err(e) && config_error_matches(
                        e,
                        declared,
                        items[stopped->Some_0],
                    ))
                    &&& stopped is None ==> (match spec_parse_tmpfiles(tmpfiles_config@) {
                        None => res matches Err(ConfigError::Tmpfiles(TmpfilesError::Parse(_))),
                        Some(lines) => {
                            let (tree, tmp_stopped) = spec_tmpfiles_fold(declared, lines, tmpfiles_props());
                            &&& tmp_stopped is None ==> (res matches Ok(t) && t@ == tree)
                            &&& tmp_stopped is Some ==> (res matches Err(ConfigError::Tmpfiles(e))
                                && tmpfiles_error_matches(
                                e,
                                tree,
                                lines[tmp_stopped->Some_0],
                                tmpfiles_props(),
                            ))
                        },
                    })
                },
    {
        let mut tree = decl::tree::Tree::new();
        let items = self.paths();
        match add_paths(&mut tree, &items) {
            Ok(()) => {},
            Err(e) => {
                return Err(e);
            },
        }
        match add_systemd_tmpfiles(&mut tree, tmpfiles_config) {
            Ok(()) => Ok(tree),
            Err(e) => Err(ConfigError::Tmpfiles(e)),
        }
    }
}

/// Declaring items from an empty tree keeps every path on the way to a
/// recorded path a recorded directory.
proof fn lemma_paths_fold_prefix_closed<'a>(items: Seq<(String, PathType, Props<'a>)>)
    ensures
        prefix_closed(spec_paths_fold(Map::<Components, Info<Props<'a>>>::empty(), items).0),
    decreases items.len(),
{
    if items.len() == 0 {
        assert(prefix_closed(Map::<Components, Info<Props<'a>>>::empty()));
    } else {
        lemma_paths_fold_prefix_closed(items.drop_last());
        let before = spec_paths_fold(Map::<Components, Info<Props<'a>>>::empty(), items.drop_last()).0;
        let (path, path_type, props) = items.last();
        if let Ok(comps) = spec_path_components(path@) {
            if spec_add(before, comps, path_type, props) is Ok {
                lemma_add_prefix_closed(before, comps, path_type, props);
            }
        }
    }
}

/// The paths systemd-tmpfiles creates never override what the
/// configuration declared: after the lines are declared, every path the
/// configuration's items recorded keeps exactly what it recorded.
pub proof fn law_config_paths_kept<'a>(
    items: Seq<(String, PathType, Props<'a>)>,
    lines: Seq<(DirectiveKind, Seq<char>, bool)>,
)
    ensures
        ({
            let declared = spec_paths_fold(Map::<Components, Info<Props<'a>>>::empty(), items).0;
            let after = spec_tmpfiles_fold(declared, lines, tmpfiles_props()).0;
            forall|p: Components| #[trigger]
                declared.contains_key(p) ==> after.contains_key(p) && after[p] == declared[p]
        }),
{
    lemma_paths_fold_prefix_closed(items);
    let declared = spec_paths_fold(Map::<Components, Info<Props<'a>>>::empty(), items).0;
    lemma_tmpfiles_fold_keeps(declared, lines, tmpfiles_props());
}

/// Every path of a set is a directory that owns its contents, a regular
/// file or a symlink.
pub open spec fn config_path_type(path_type: PathType) -> bool {
    path_type == PathType::Dir(DirProps { owns_contents: true }) || path_type == PathType::File(
        FileType::Regular,
    ) || path_type == PathType::File(FileType::Symlink)
}

proof fn lemma_concat_types(a: Seq<ItemView>, b: Seq<ItemView>)
    requires
        forall|i: int| 0 <= i < a.len() ==> config_path_type(#[trigger] a[i].1),
        forall|i: int| 0 <= i < b.len() ==> config_path_type(#[trigger] b[i].1),
    ensures
        forall|i: int| 0 <= i < (a + b).len() ==> config_path_type(#[trigger] (a + b)[i].1),
{
    assert forall|i: int| 0 <= i < (a + b).len() implies config_path_type(#[trigger] (a + b)[i].1) by {
        if i < a.len() {
            assert((a + b)[i] == a[i]);
        } else {
            assert((a + b)[i] == b[i - a.len()]);
        }
    }
}

proof fn lemma_module_view_types(module: Module, owner: OwnerView)
    ensures
        forall|i: int|
            0 <= i < module_view(module, owner).len() ==> config_path_type(
                #[trigger] module_view(module, owner)[i].1,
            ),
{
}

proof fn lemma_adhoc_view_types(adhoc: Seq<(String, Module)>, user: Seq<char>)
    ensures
        forall|i: int|
            0 <= i < adhoc_view(adhoc, user).len() ==> config_path_type(
                #[trigger] adhoc_view(adhoc, user)[i].1,
            ),
    decreases adhoc.len(),
{
    if adhoc.len() > 0 {
        let owner = OwnerView::AdhocUser { name: adhoc.last().0@, user };
        lemma_adhoc_view_types(adhoc.drop_last(), user);
        lemma_module_view_types(adhoc.last().1, owner);
        lemma_concat_types(adhoc_view(adhoc.drop_last(), user), module_view(adhoc.last().1, owner));
    }
}

proof fn lemma_enabled_view_types(
    modules: Seq<(String, bool)>,
    available: Seq<(String, Module)>,
    maybe_user: Option<Seq<char>>,
)
    ensures
        forall|i: int|
            0 <= i < enabled_view(modules, available, maybe_user).len() ==> config_path_type(
                #[trigger] enabled_view(modules, available, maybe_user)[i].1,
            ),
    decreases modules.len(),
{
    if modules.len() > 0 {
        let (name, enabled) = modules.last();
        let module = available[module_index(available, name@)].1;
        let owner = module_owner(name@, maybe_user, enabled);
        lemma_enabled_view_types(modules.drop_last(), available, maybe_user);
        lemma_module_view_types(module, owner);
        lemma_concat_types(
            enabled_view(modules.drop_last(), available, maybe_user),
            module_view(module, owner),
        );
    }
}

proof fn lemma_users_view_types(users: Seq<(String, UserConfig)>, available: Seq<(String, Module)>)
    ensures
        forall|i: int|
            0 <= i < users_view(users, available).len() ==> config_path_type(
                #[trigger] users_view(users, available)[i].1,
            ),
    decreases users.len(),
{
    if users.len() > 0 {
        let user = users.last();
        lemma_users_view_types(users.drop_last(), available);
        lemma_adhoc_view_types(user.1.adhoc@, user.0@);
        lemma_enabled_view_types(user.1.modules@, available, Some(user.0@));
        let inner = adhoc_view(user.1.adhoc@, user.0@) + enabled_view(
            user.1.modules@,
            available,
            Some(user.0@),
        );
        lemma_concat_types(
            adhoc_view(user.1.adhoc@, user.0@),
            enabled_view(user.1.modules@, available, Some(user.0@)),
        );
        let outer = joined(inner, user.1.home@);
        assert forall|i: int| 0 <= i < outer.len() implies config_path_type(#[trigger] outer[i].1) by {
            assert(outer[i].1 == inner[i].1);
        }
        lemma_concat_types(users_view(users.drop_last(), available), outer);
    }
}

/// Every item of `a + b` is one of `a` or one of `b`.
proof fn lemma_concat_all(a: Seq<ItemView>, b: Seq<ItemView>, pred: spec_fn(ItemView) -> bool)
    requires
        forall|i: int| 0 <= i < a.len() ==> pred(#[trigger] a[i]),
        forall|i: int| 0 <= i < b.len() ==> pred(#[trigger] b[i]),
    ensures
        forall|i: int| 0 <= i < (a + b).len() ==> pred(#[trigger] (a + b)[i]),
{
    assert forall|i: int| 0 <= i < (a + b).len() implies pred(#[trigger] (a + b)[i]) by {
        if i < a.len() {
            assert((a + b)[i] == a[i]);
        } else {
            assert((a + b)[i] == b[i - a.len()]);
        }
    }
}

/// Every path of a module is owned by the module's owner.
proof fn lemma_module_view_owner(module: Module, owner: OwnerView)
    ensures
        forall|i: int|
            0 <= i < module_view(module, owner).len() ==> (#[trigger] module_view(module, owner)[i]).2.owner
                == owner,
{
    let pred = |it: ItemView| it.2.owner == owner;
    let sets = seq![module.cache, module.data, module.ephemeral];
    assert forall|k: int, c: StorageClass| 0 <= k < 3 implies #[trigger] pred_all(
        path_set_view(sets[k], PropertiesView { owner, storage_class: c }),
        pred,
    ) by {
        let props = PropertiesView { owner, storage_class: c };
        let set = sets[k];
        lemma_concat_all(
            path_list_view(set.directories@, PathType::Dir(DirProps { owns_contents: true }), props),
            path_list_view(set.files@, PathType::File(FileType::Regular), props),
            pred,
        );
        lemma_concat_all(
            path_list_view(set.directories@, PathType::Dir(DirProps { owns_contents: true }), props)
                + path_list_view(set.files@, PathType::File(FileType::Regular), props),
            path_list_view(set.symlinks@, PathType::File(FileType::Symlink), props),
            pred,
        );
    }
    let cache = path_set_view(module.cache, PropertiesView { owner, storage_class: StorageClass::Cache });
    let data = path_set_view(module.data, PropertiesView { owner, storage_class: StorageClass::Data });
    let eph = path_set_view(module.ephemeral, PropertiesView { owner, storage_class: StorageClass::Ephemeral });
    assert(pred_all(cache, pred) && pred_all(data, pred) && pred_all(eph, pred)) by {
        assert(sets[0] == module.cache && sets[1] == module.data && sets[2] == module.ephemeral);
        assert(pred_all(path_set_view(sets[0], PropertiesView { owner, storage_class: StorageClass::Cache }), pred));
        assert(pred_all(path_set_view(sets[1], PropertiesView { owner, storage_class: StorageClass::Data }), pred));
        assert(pred_all(path_set_view(sets[2], PropertiesView { owner, storage_class: StorageClass::Ephemeral }), pred));
    }
    lemma_concat_all(cache, data, pred);
    lemma_concat_all(cache + data, eph, pred);
}

/// Whether `pred` holds of every item.
pub open spec fn pred_all(items: Seq<ItemView>, pred: spec_fn(ItemView) -> bool) -> bool {
    forall|i: int| 0 <= i < items.len() ==> pred(#[trigger] items[i])
}

/// Whether `owner` is what the module list `modules` gives one of its
/// entries: the entry's name, the user where there is one, and the
/// entry's flag.
pub open spec fn owner_from_list(
    owner: OwnerView,
    modules: Seq<(String, bool)>,
    maybe_user: Option<Seq<char>>,
) -> bool {
    exists|m: int|
        0 <= m < modules.len() && owner == module_owner(
            (#[trigger] modules[m]).0@,
            maybe_user,
            modules[m].1,
        )
}

proof fn lemma_enabled_view_owners(
    modules: Seq<(String, bool)>,
    available: Seq<(String, Module)>,
    maybe_user: Option<Seq<char>>,
)
    ensures
        forall|i: int|
            0 <= i < enabled_view(modules, available, maybe_user).len() ==> owner_from_list(
                (#[trigger] enabled_view(modules, available, maybe_user)[i]).2.owner,
                modules,
                maybe_user,
            ),
    decreases modules.len(),
{
    if modules.len() > 0 {
        let rest = modules.drop_last();
        let (name, enabled) = modules.last();
        let module = available[module_index(available, name@)].1;
        let owner = module_owner(name@, maybe_user, enabled);
        lemma_enabled_view_owners(rest, available, maybe_user);
        lemma_module_view_owner(module, owner);
        let pred = |it: ItemView| owner_from_list(it.2.owner, modules, maybe_user);
        assert forall|i: int| 0 <= i < enabled_view(rest, available, maybe_user).len() implies pred(
            #[trigger] enabled_view(rest, available, maybe_user)[i],
        ) by {
            let o = enabled_view(rest, available, maybe_user)[i].2.owner;
            assert(owner_from_list(o, rest, maybe_user));
            let m = choose|m: int|
                0 <= m < rest.len() && o == module_owner(
                    (#[trigger] rest[m]).0@,
                    maybe_user,
                    rest[m].1,
                );
            assert(modules[m] == rest[m]);
        }
        assert forall|i: int| 0 <= i < module_view(module, owner).len() implies pred(
            #[trigger] module_view(module, owner)[i],
        ) by {
            assert(modules[modules.len() - 1] == modules.last());
        }
        lemma_concat_all(enabled_view(rest, available, maybe_user), module_view(module, owner), pred);
    }
}

/// Whether `owner` is what one of `users` gives: one of the user's ad hoc
/// modules, or an entry of the user's module list.
pub open spec fn owner_from_users(owner: OwnerView, users: Seq<(String, UserConfig)>) -> bool {
    exists|u: int|
        0 <= u < users.len() && (owner_from_list(
            owner,
            (#[trigger] users[u]).1.modules@,
            Some(users[u].0@),
        ) || owner is AdhocUser)
}

proof fn lemma_adhoc_view_owners(adhoc: Seq<(String, Module)>, user: Seq<char>)
    ensures
        forall|i: int|
            0 <= i < adhoc_view(adhoc, user).len() ==> (#[trigger] adhoc_view(adhoc, user)[i]).2.owner is AdhocUser,
    decreases adhoc.len(),
{
    if adhoc.len() > 0 {
        let owner = OwnerView::AdhocUser { name: adhoc.last().0@, user };
        lemma_adhoc_view_owners(adhoc.drop_last(), user);
        lemma_module_view_owner(adhoc.last().1, owner);
        lemma_concat_all(
            adhoc_view(adhoc.drop_last(), user),
            module_view(adhoc.last().1, owner),
            |it: ItemView| it.2.owner is AdhocUser,
        );
    }
}

proof fn lemma_users_view_owners(users: Seq<(String, UserConfig)>, available: Seq<(String, Module)>)
    ensures
        forall|i: int|
            0 <= i < users_view(users, available).len() ==> owner_from_users(
                (#[trigger] users_view(users, available)[i]).2.owner,
                users,
            ),
    decreases users.len(),
{
    if users.len() > 0 {
        let rest = users.drop_last();
        let user = users.last();
        let pred = |it: ItemView| owner_from_users(it.2.owner, users);
        lemma_users_view_owners(rest, available);
        assert forall|i: int| 0 <= i < users_view(rest, available).len() implies pred(
            #[trigger] users_view(rest, available)[i],
        ) by {
            let o = users_view(rest, available)[i].2.owner;
            let u = choose|u: int|
                0 <= u < rest.len() && (owner_from_list(
                    o,
                    (#[trigger] rest[u]).1.modules@,
                    Some(rest[u].0@),
                ) || o is AdhocUser);
            assert(users[u] == rest[u]);
        }
        lemma_adhoc_view_owners(user.1.adhoc@, user.0@);
        lemma_enabled_view_owners(user.1.modules@, available, Some(user.0@));
        let inner = adhoc_view(user.1.adhoc@, user.0@) + enabled_view(
            user.1.modules@,
            available,
            Some(user.0@),
        );
        let last = users.len() - 1;
        assert(users[last] == user);
        assert forall|i: int| 0 <= i < adhoc_view(user.1.adhoc@, user.0@).len() implies pred(
            #[trigger] adhoc_view(user.1.adhoc@, user.0@)[i],
        ) by {}
        assert forall|i: int|
            0 <= i < enabled_view(user.1.modules@, available, Some(user.0@)).len() implies pred(
            #[trigger] enabled_view(user.1.modules@, available, Some(user.0@))[i],
        ) by {}
        lemma_concat_all(
            adhoc_view(user.1.adhoc@, user.0@),
            enabled_view(user.1.modules@, available, Some(user.0@)),
            pred,
        );
        let outer = joined(inner, user.1.home@);
        assert forall|i: int| 0 <= i < outer.len() implies pred(#[trigger] outer[i]) by {
            assert(outer[i].2 == inner[i].2);
        }
        lemma_concat_all(users_view(rest, available), outer, pred);
    }
}

/// Every owner of a listed path is one the configuration names, with the
/// flag it gives: a user module's paths are owned by
/// `User { name, user, enabled }` for an entry `(name, enabled)` of that
/// user's module list, a system module's paths by `System { name, enabled }`
/// for an entry `(name, enabled)` of the enabled-module list; so a module
/// listed as disabled owns its paths as disabled. No path is owned by the
/// ad hoc system owner.
pub proof fn law_owners_follow_module_lists(config: Config)
    ensures
        forall|i: int|
            0 <= i < spec_config_paths(config).len() ==> {
                let owner = (#[trigger] spec_config_paths(config)[i]).2.owner;
                &&& owner matches OwnerView::User { name, user, enabled } ==> exists|u: int, m: int|
                    0 <= u < config.users@.len() && 0 <= m < config.users@[u].1.modules@.len()
                        && config.users@[u].0@ == user && (#[trigger] config.users@[u].1.modules@[m]).0@
                        == name && config.users@[u].1.modules@[m].1 == enabled
                &&& owner matches OwnerView::System { name, enabled } ==> exists|m: int|
                    0 <= m < config.enabled_modules@.len() && (
                    #[trigger] config.enabled_modules@[m]).0@ == name
                        && config.enabled_modules@[m].1 == enabled
                &&& !(owner is AdhocSystem)
            },
{
    let users = config.users@;
    let system = config.enabled_modules@;
    let uv = users_view(users, config.available_modules.user@);
    let sv = enabled_view(system, config.available_modules.system@, None);
    lemma_users_view_owners(users, config.available_modules.user@);
    lemma_enabled_view_owners(system, config.available_modules.system@, None);
    assert forall|i: int| 0 <= i < spec_config_paths(config).len() implies {
        let owner = (#[trigger] spec_config_paths(config)[i]).2.owner;
        &&& owner matches OwnerView::User { name, user, enabled } ==> exists|u: int, m: int|
            0 <= u < config.users@.len() && 0 <= m < config.users@[u].1.modules@.len()
                && config.users@[u].0@ == user && (#[trigger] config.users@[u].1.modules@[m]).0@
                == name && config.users@[u].1.modules@[m].1 == enabled
        &&& owner matches OwnerView::System { name, enabled } ==> exists|m: int|
            0 <= m < config.enabled_modules@.len() && (
            #[trigger] config.enabled_modules@[m]).0@ == name && config.enabled_modules@[m].1
                == enabled
        &&& !(owner is AdhocSystem)
    } by {
        let owner = spec_config_paths(config)[i].2.owner;
        if i < uv.len() {
            assert(spec_config_paths(config)[i] == uv[i]);
            assert(owner_from_users(owner, users));
            let u = choose|u: int|
                0 <= u < users.len() && (owner_from_list(
                    owner,
                    (#[trigger] users[u]).1.modules@,
                    Some(users[u].0@),
                ) || owner is AdhocUser);
            if !(owner is AdhocUser) {
                let mods = users[u].1.modules@;
                let m = choose|m: int|
                    0 <= m < mods.len() && owner == module_owner(
                        (#[trigger] mods[m]).0@,
                        Some(users[u].0@),
                        mods[m].1,
                    );
                assert(config.users@[u].1.modules@[m] == mods[m]);
            }
        } else {
            assert(spec_config_paths(config)[i] == sv[i - uv.len()]);
            assert(owner_from_list(owner, system, None));
            let m = choose|m: int|
                0 <= m < system.len() && owner == module_owner(
                    (#[trigger] system[m]).0@,
                    None,
                    system[m].1,
                );
            assert(config.enabled_modules@[m] == system[m]);
        }
    }
}

/// Every declared path of the configuration is a directory that owns its
/// contents, a regular file or a symlink.
pub proof fn lemma_config_paths_types(config: Config)
    ensures
        forall|i: int|
            0 <= i < spec_config_paths(config).len() ==> config_path_type(
                #[trigger] spec_config_paths(config)[i].1,
            ),
{
    lemma_users_view_types(config.users@, config.available_modules.user@);
    lemma_enabled_view_types(config.enabled_modules@, config.available_modules.system@, None);
    lemma_concat_types(
        users_view(config.users@, config.available_modules.user@),
        enabled_view(config.enabled_modules@, config.available_modules.system@, None),
    );
}

} // verus!
