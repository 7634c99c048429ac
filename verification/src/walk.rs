//! Walks: how a file is reached from the root of a grant.
//!
//! A file is reached one directory at a time and by plain names only, so that
//! the host can open each step without following links.

use crate::path;
use crate::path::{Component, ComponentView};
use crate::text;
use vstd::prelude::*;
use vstd::string::*;

verus! {

/// A place in the file system that a pattern of the bundle grants.
#[derive(Debug)]
pub struct PathGrant {
    /// The canonical path of the file or directory.
    pub root: Vec<u8>,
    /// Whether the pattern ended in `/**`. The root of such a grant is a
    /// directory; that of any other may be the file itself, which can then be
    /// read, but not written.
    pub subtree: bool,
}

/// A grant as a mathematical value.
pub struct GrantView {
    pub root: Seq<u8>,
    pub subtree: bool,
}

impl View for PathGrant {
    type V = GrantView;

    open spec fn view(&self) -> GrantView {
        GrantView { root: self.root@, subtree: self.subtree }
    }
}

/// The views of grants.
pub open spec fn grant_views(v: Seq<PathGrant>) -> Seq<GrantView> {
    Seq::new(v.len(), |i: int| v[i]@)
}

/// The path that a pattern of the bundle speaks of.
pub open spec fn pattern_root(pattern: Seq<char>) -> Seq<char> {
    text::trimmed_end(pattern, "/**"@)
}

impl PathGrant {
    /// The path that a pattern of the bundle speaks of, without its `/**`.
    pub fn root_of(pattern: &str) -> (res: String)
        ensures
            res@ == pattern_root(pattern@),
    {
        proof {
            reveal_strlit("/**");
        }
        text::trim_end_matches(pattern, "/**")
    }

    /// The grant of a pattern whose path has the given canonical form. Where
    /// it has none, the path is taken as it is written.
    pub fn new(pattern: &str, canonical: Option<Vec<u8>>) -> (res: PathGrant)
        ensures
            res@ == (GrantView {
                root: match canonical {
                    Some(root) => root@,
                    None => vstd::utf8::encode_utf8(pattern_root(pattern@)),
                },
                subtree: text::without_suffix(pattern@, "/**"@) is Some,
            }),
    {
        let subtree = text::strip_suffix(pattern, "/**").is_some();
        match canonical {
            Some(root) => PathGrant { root, subtree },
            None => {
                let root = PathGrant::root_of(pattern);
                PathGrant { root: path::copy_bytes(root.as_str().as_bytes()), subtree }
            },
        }
    }
}

/// How to reach a file: open `root`, enter each of `directories` in turn, and
/// open `leaf` there. `target` is the canonical path that results.
#[derive(Debug)]
pub struct WalkPlan {
    pub root: Vec<u8>,
    pub directories: Vec<Vec<u8>>,
    pub leaf: Vec<u8>,
    pub target: Vec<u8>,
}

/// A walk as a mathematical value.
#[verifier::ext_equal]
pub struct WalkView {
    pub root: Seq<u8>,
    pub directories: Seq<Seq<u8>>,
    pub leaf: Seq<u8>,
    pub target: Seq<u8>,
}

impl View for WalkPlan {
    type V = WalkView;

    open spec fn view(&self) -> WalkView {
        WalkView {
            root: self.root@,
            directories: path::byte_views(self.directories@),
            leaf: self.leaf@,
            target: self.target@,
        }
    }
}

/// The name of a component that no walk may pass through.
pub open spec fn component_name(component: ComponentView) -> Seq<char> {
    match component {
        ComponentView::RootDir => "RootDir"@,
        ComponentView::CurDir => "CurDir"@,
        ComponentView::ParentDir => "ParentDir"@,
        ComponentView::Normal(_) => "Normal"@,
    }
}

/// The names of the components if all are plain names, else what is said about
/// the first that is not.
pub open spec fn plain_names(components: Seq<ComponentView>) -> Result<Seq<Seq<u8>>, Seq<char>>
    decreases components.len(),
{
    if components.len() == 0 {
        Ok(Seq::empty())
    } else {
        match plain_names(components.drop_last()) {
            Ok(names) => match components.last() {
                ComponentView::Normal(name) => Ok(names.push(name)),
                other => Err("disallowed path component "@ + component_name(other)),
            },
            Err(reason) => Err(reason),
        }
    }
}

/// The names to walk by beneath a root, or why there is no such walk.
pub open spec fn walk_names(relative: Seq<ComponentView>) -> Result<Seq<Seq<u8>>, Seq<char>> {
    match plain_names(relative) {
        Ok(names) => if names.len() == 0 {
            Err("relative path resolves to bundle root"@)
        } else {
            Ok(names)
        },
        Err(reason) => Err(reason),
    }
}

/// The target lies at or beneath the root of the grant.
pub open spec fn grant_covers(grant: GrantView, target: Seq<u8>) -> bool {
    path::components(grant.root).is_prefix_of(path::components(target))
}

/// The first grant, from position `from` on, that covers the target.
pub open spec fn first_cover(grants: Seq<GrantView>, target: Seq<u8>, from: int) -> Option<
    GrantView,
>
    decreases grants.len() - from,
{
    if from < 0 || from >= grants.len() {
        None
    } else if grant_covers(grants[from], target) {
        Some(grants[from])
    } else {
        first_cover(grants, target, from + 1)
    }
}

/// Why no walk leads to a path.
pub enum LocateFault {
    /// The path names no file.
    Unnamed,
    /// No grant covers the target.
    Outside { target: Vec<u8> },
    /// A grant covers the target, but no walk leads there.
    Blocked { target: Vec<u8>, reason: String },
}

/// Why no walk leads to a path, as a mathematical value.
pub enum LocateFaultView {
    Unnamed,
    Outside { target: Seq<u8> },
    Blocked { target: Seq<u8>, reason: Seq<char> },
}

impl View for LocateFault {
    type V = LocateFaultView;

    open spec fn view(&self) -> LocateFaultView {
        match self {
            LocateFault::Unnamed => LocateFaultView::Unnamed,
            LocateFault::Outside { target } => LocateFaultView::Outside { target: target@ },
            LocateFault::Blocked { target, reason } => LocateFaultView::Blocked {
                target: target@,
                reason: reason@,
            },
        }
    }
}

/// The walk to the file that `path` names, where `parent` is the canonical
/// form of the directory it is in. If `single` is set, a file that is granted
/// by itself is reached from the directory that holds it; else only what lies
/// beneath the root of a grant is reached.
pub open spec fn located_in(
    grants: Seq<GrantView>,
    path: Seq<u8>,
    parent: Seq<u8>,
    single: bool,
) -> Result<WalkView, LocateFaultView> {
    match path::file_name_of(path) {
        None => Err(LocateFaultView::Unnamed),
        Some(name) => {
            let target = path::path_in(parent, name);
            match first_cover(grants, target, 0) {
                None => Err(LocateFaultView::Outside { target }),
                Some(grant) => {
                    let relative = path::components(target).skip(
                        path::components(grant.root).len() as int,
                    );
                    if single && relative.len() == 0 && !grant.subtree {
                        Ok(WalkView { root: parent, directories: Seq::empty(), leaf: name, target })
                    } else {
                        match walk_names(relative) {
                            Ok(names) => Ok(
                                WalkView {
                                    root: grant.root,
                                    directories: names.drop_last(),
                                    leaf: names.last(),
                                    target,
                                },
                            ),
                            Err(reason) => Err(LocateFaultView::Blocked { target, reason }),
                        }
                    }
                },
            }
        },
    }
}

/// The walk to a file to read.
pub open spec fn located(grants: Seq<GrantView>, path: Seq<u8>, parent: Seq<u8>) -> Result<
    WalkView,
    LocateFaultView,
> {
    located_in(grants, path, parent, true)
}

/// The walk to a file to write.
pub open spec fn located_beneath(grants: Seq<GrantView>, path: Seq<u8>, parent: Seq<u8>) -> Result<
    WalkView,
    LocateFaultView,
> {
    located_in(grants, path, parent, false)
}

/// The name of a component that no walk may pass through.
fn component_label(component: &Component) -> (res: String)
    ensures
        res@ == component_name(component@),
{
    match component {
        Component::RootDir => "RootDir".to_owned(),
        Component::CurDir => "CurDir".to_owned(),
        Component::ParentDir => "ParentDir".to_owned(),
        Component::Normal(_) => "Normal".to_owned(),
    }
}

proof fn lemma_bad_component(components: Seq<ComponentView>, n: nat)
    requires
        n <= components.len(),
        plain_names(components.take(n as int)) is Err,
    ensures
        plain_names(components) == plain_names(components.take(n as int)),
    decreases components.len(),
{
    if n == components.len() {
        assert(components.take(n as int) =~= components);
    } else {
        assert(components.drop_last().take(n as int) =~= components.take(n as int));
        lemma_bad_component(components.drop_last(), n);
    }
}

/// The names to walk by among the components from position `from` on, or why
/// there is no such walk.
fn collect_names(components: &Vec<Component>, from: usize) -> (res: Result<Vec<Vec<u8>>, String>)
    requires
        from <= components@.len(),
    ensures
        match res {
            Ok(names) => walk_names(path::component_views(components@).skip(from as int)) == Ok::<
                Seq<Seq<u8>>,
                Seq<char>,
            >(path::byte_views(names@)) && names@.len() > 0,
            Err(reason) => walk_names(path::component_views(components@).skip(from as int))
                == Err::<Seq<Seq<u8>>, Seq<char>>(reason@),
        },
{
    let ghost relative = path::component_views(components@).skip(from as int);
    let mut names: Vec<Vec<u8>> = Vec::new();
    let mut i: usize = from;
    proof {
        assert(relative.take(0).len() == 0);
        assert(path::byte_views(names@) =~= Seq::empty());
    }
    while i < components.len()
        invariant
            from <= i <= components@.len(),
            relative == path::component_views(components@).skip(from as int),
            plain_names(relative.take(i - from)) == Ok::<Seq<Seq<u8>>, Seq<char>>(
                path::byte_views(names@),
            ),
        decreases components@.len() - i,
    {
        let ghost n = (i - from) as int;
        let ghost before = path::byte_views(names@);
        proof {
            assert(relative.take(n + 1).drop_last() =~= relative.take(n));
            assert(relative.take(n + 1).last() == components@[i as int]@);
        }
        match &components[i] {
            Component::Normal(name) => {
                let copy = path::copy_bytes(name.as_slice());
                names.push(copy);
                assert(path::byte_views(names@) =~= before.push(copy@));
            },
            other => {
                let mut reason = "disallowed path component ".to_owned();
                reason.append(component_label(other).as_str());
                proof {
                    lemma_bad_component(relative, (n + 1) as nat);
                }
                return Err(reason);
            },
        }
        i = i + 1;
    }
    assert(relative.take(relative.len() as int) =~= relative);
    if names.len() == 0 {
        return Err("relative path resolves to bundle root".to_owned());
    }
    Ok(names)
}

/// The walk to the file that `path` names, to read it.
pub fn locate(grants: &Vec<PathGrant>, path: &[u8], parent: &[u8]) -> (res: Result<
    WalkPlan,
    LocateFault,
>)
    ensures
        match res {
            Ok(plan) => located(grant_views(grants@), path@, parent@) == Ok::<
                WalkView,
                LocateFaultView,
            >(plan@),
            Err(fault) => located(grant_views(grants@), path@, parent@) == Err::<
                WalkView,
                LocateFaultView,
            >(fault@),
        },
{
    locate_in(grants, path, parent, true)
}

/// The walk to the file that `path` names, to write it.
pub fn locate_beneath(grants: &Vec<PathGrant>, path: &[u8], parent: &[u8]) -> (res: Result<
    WalkPlan,
    LocateFault,
>)
    ensures
        match res {
            Ok(plan) => located_beneath(grant_views(grants@), path@, parent@) == Ok::<
                WalkView,
                LocateFaultView,
            >(plan@),
            Err(fault) => located_beneath(grant_views(grants@), path@, parent@) == Err::<
                WalkView,
                LocateFaultView,
            >(fault@),
        },
{
    locate_in(grants, path, parent, false)
}

/// The walk to the file that `path` names.
fn locate_in(grants: &Vec<PathGrant>, path: &[u8], parent: &[u8], single: bool) -> (res: Result<
    WalkPlan,
    LocateFault,
>)
    ensures
        match res {
            Ok(plan) => located_in(grant_views(grants@), path@, parent@, single) == Ok::<
                WalkView,
                LocateFaultView,
            >(plan@),
            Err(fault) => located_in(grant_views(grants@), path@, parent@, single) == Err::<
                WalkView,
                LocateFaultView,
            >(fault@),
        },
{
    let name = match path::file_name(path) {
        Some(name) => name,
        None => {
            return Err(LocateFault::Unnamed);
        },
    };
    let target = path::join(parent, name.as_slice());
    let components = path::path_components(target.as_slice());
    let ghost views = grant_views(grants@);
    let mut i: usize = 0;
    while i < grants.len()
        invariant
            i <= grants@.len(),
            views == grant_views(grants@),
            path::component_views(components@) == path::components(target@),
            first_cover(views, target@, 0) == first_cover(views, target@, i as int),
            path::file_name_of(path@) == Some(name@),
            target@ == path::path_in(parent@, name@),
        decreases grants@.len() - i,
    {
        assert(views[i as int] == grants@[i as int]@);
        let root = path::path_components(grants[i].root.as_slice());
        if path::has_prefix(&components, &root) {
            if single && components.len() == root.len() && !grants[i].subtree {
                let plan = WalkPlan {
                    root: path::copy_bytes(parent),
                    directories: Vec::new(),
                    leaf: name,
                    target,
                };
                assert(plan@.directories =~= Seq::<Seq<u8>>::empty());
                return Ok(plan);
            }
            return match collect_names(&components, root.len()) {
                Ok(names) => {
                    let ghost all = path::byte_views(names@);
                    let mut directories = names;
                    let leaf = directories.pop().unwrap();
                    assert(path::byte_views(directories@) =~= all.drop_last());
                    Ok(
                        WalkPlan {
                            root: path::copy_bytes(grants[i].root.as_slice()),
                            directories,
                            leaf,
                            target,
                        },
                    )
                },
                Err(reason) => Err(LocateFault::Blocked { target, reason }),
            };
        }
        i = i + 1;
    }
    Err(LocateFault::Outside { target })
}

/// The components made of plain names.
pub open spec fn as_components(names: Seq<Seq<u8>>) -> Seq<ComponentView> {
    Seq::new(names.len(), |i: int| ComponentView::Normal(names[i]))
}

proof fn lemma_plain_names(components: Seq<ComponentView>)
    ensures
        plain_names(components) matches Ok(names) ==> components == as_components(names),
    decreases components.len(),
{
    if components.len() == 0 {
        assert(components =~= as_components(Seq::empty()));
    } else {
        lemma_plain_names(components.drop_last());
        if let Ok(names) = plain_names(components) {
            assert(components =~= components.drop_last().push(components.last()));
            assert(components =~= as_components(names));
        }
    }
}

proof fn lemma_first_cover(grants: Seq<GrantView>, target: Seq<u8>, from: int)
    requires
        0 <= from,
        first_cover(grants, target, from) is Some,
    ensures
        exists|i: int|
            from <= i < grants.len() && #[trigger] grants[i] == first_cover(
                grants,
                target,
                from,
            ).unwrap() && grant_covers(grants[i], target),
    decreases grants.len() - from,
{
    if from < grants.len() && !grant_covers(grants[from], target) {
        lemma_first_cover(grants, target, from + 1);
    }
}

/// A walk stays within the grants. Its target lies at or beneath the root of
/// some grant; the directories and the leaf are plain names, so no step goes
/// up or jumps elsewhere; and walking them from the root of the walk leads to
/// the target exactly.
pub proof fn law_walk_stays_within_a_grant(
    grants: Seq<GrantView>,
    path: Seq<u8>,
    parent: Seq<u8>,
    single: bool,
)
    requires
        located_in(grants, path, parent, single) is Ok,
    ensures
        ({
            let walk = located_in(grants, path, parent, single)->Ok_0;
            let names = walk.directories.push(walk.leaf);
            &&& exists|i: int|
                0 <= i < grants.len() && grant_covers(#[trigger] grants[i], walk.target)
            &&& forall|i: int| 0 <= i < names.len() ==> path::is_plain_name(#[trigger] names[i])
            &&& path::components(walk.target) == path::components(walk.root) + as_components(names)
        }),
{
    let walk = located_in(grants, path, parent, single)->Ok_0;
    let names = walk.directories.push(walk.leaf);
    let name = path::file_name_of(path).unwrap();
    let target = path::path_in(parent, name);
    let grant = first_cover(grants, target, 0).unwrap();
    let whole = path::components(target);
    let root = path::components(grant.root);
    let relative = whole.skip(root.len() as int);
    path::law_file_name_is_the_last_component(path);
    lemma_first_cover(grants, target, 0);
    if single && relative.len() == 0 && !grant.subtree {
        path::law_entry_extends_its_directory(parent, name);
        assert(names =~= seq![name]);
        assert(whole =~= path::components(parent) + as_components(names));
    } else {
        let found = walk_names(relative)->Ok_0;
        lemma_plain_names(relative);
        assert(names =~= found);
        assert(whole =~= root + relative);
        assert forall|i: int| 0 <= i < names.len() implies path::is_plain_name(
            #[trigger] names[i],
        ) by {
            assert(relative[i] == ComponentView::Normal(names[i]));
            assert(whole[root.len() + i] == relative[i]);
            path::law_component_names_are_plain(target, root.len() + i);
        }
    }
}

/// What is written lies strictly beneath the root of a grant: a walk to a file
/// to write starts at the root of a grant, and the root itself is refused.
pub proof fn law_writes_stay_beneath_a_root(grants: Seq<GrantView>, path: Seq<u8>, parent: Seq<u8>)
    ensures
        located_beneath(grants, path, parent) matches Ok(walk) ==> {
            &&& exists|i: int|
                0 <= i < grants.len() && (#[trigger] grants[i]).root == walk.root && grant_covers(
                    grants[i],
                    walk.target,
                )
            &&& path::components(walk.root).len() < path::components(walk.target).len()
        },
        path::file_name_of(path) matches Some(name) ==> {
            let target = path::path_in(parent, name);
            first_cover(grants, target, 0) matches Some(grant) ==> path::components(grant.root)
                == path::components(target) ==> located_beneath(grants, path, parent) == Err::<
                WalkView,
                LocateFaultView,
            >(
                LocateFaultView::Blocked {
                    target,
                    reason: "relative path resolves to bundle root"@,
                },
            )
        },
{
    if let Some(name) = path::file_name_of(path) {
        let target = path::path_in(parent, name);
        if let Some(grant) = first_cover(grants, target, 0) {
            let relative = path::components(target).skip(
                path::components(grant.root).len() as int,
            );
            lemma_first_cover(grants, target, 0);
            if path::components(grant.root) == path::components(target) {
                assert(relative =~= Seq::empty());
            }
            lemma_plain_names(relative);
        }
    }
}

/// The first grant that covers the target stands at position `i`.
pub open spec fn first_covering(grants: Seq<GrantView>, target: Seq<u8>, i: int) -> bool {
    &&& 0 <= i < grants.len()
    &&& grant_covers(grants[i], target)
    &&& forall|j: int| 0 <= j < i ==> !grant_covers(#[trigger] grants[j], target)
}

proof fn lemma_first_covering(grants: Seq<GrantView>, target: Seq<u8>, from: int, i: int)
    requires
        first_covering(grants, target, i),
        0 <= from <= i,
    ensures
        first_cover(grants, target, from) == Some(grants[i]),
    decreases i - from,
{
    if from < i {
        assert(!grant_covers(grants[from], target));
        lemma_first_covering(grants, target, from + 1, i);
    }
}

proof fn lemma_nothing_covers(grants: Seq<GrantView>, target: Seq<u8>, from: int)
    requires
        0 <= from,
        forall|j: int| 0 <= j < grants.len() ==> !grant_covers(#[trigger] grants[j], target),
    ensures
        first_cover(grants, target, from) is None,
    decreases grants.len() - from,
{
    if from < grants.len() {
        assert(!grant_covers(grants[from], target));
        lemma_nothing_covers(grants, target, from + 1);
    }
}

proof fn lemma_all_plain(parts: Seq<ComponentView>)
    requires
        forall|i: int| 0 <= i < parts.len() ==> (#[trigger] parts[i]) is Normal,
    ensures
        plain_names(parts) is Ok,
    decreases parts.len(),
{
    if parts.len() > 0 {
        assert(parts[parts.len() - 1] is Normal);
        assert forall|i: int| 0 <= i < parts.len() - 1 implies (#[trigger] parts.drop_last()[i])
            is Normal by {
            assert(parts.drop_last()[i] == parts[i]);
        }
        lemma_all_plain(parts.drop_last());
    }
}

proof fn lemma_first_odd(parts: Seq<ComponentView>, k: int)
    requires
        0 <= k < parts.len(),
        !(parts[k] is Normal),
        forall|i: int| 0 <= i < k ==> (#[trigger] parts[i]) is Normal,
    ensures
        plain_names(parts) == Err::<Seq<Seq<u8>>, Seq<char>>(
            "disallowed path component "@ + component_name(parts[k]),
        ),
    decreases parts.len(),
{
    let front = parts.drop_last();
    if k < front.len() {
        assert(front[k] == parts[k]);
        assert forall|i: int| 0 <= i < k implies (#[trigger] front[i]) is Normal by {
            assert(front[i] == parts[i]);
        }
        lemma_first_odd(front, k);
    } else {
        assert forall|i: int| 0 <= i < front.len() implies (#[trigger] front[i]) is Normal by {
            assert(front[i] == parts[i]);
        }
        lemma_all_plain(front);
    }
}

/// Every file that is granted is reached, and no other. A path that names no
/// file is refused as such. Otherwise the target is the file of that name in
/// the directory, and it is outside exactly if no grant, wherever it stands,
/// covers it. The first grant that does is the one to start from: where only
/// plain names lead on from its root, they are the walk, all of them in order;
/// the first component that is no name blocks it; and the root itself is
/// reached only if `single` is set and the grant is of that file alone, from
/// the directory that holds it.
pub proof fn law_granted_files_are_reached(
    grants: Seq<GrantView>,
    path: Seq<u8>,
    parent: Seq<u8>,
    single: bool,
    i: int,
    k: int,
)
    ensures
        ({
            let found = located_in(grants, path, parent, single);
            &&& path::file_name_of(path) is None ==> found == Err::<WalkView, LocateFaultView>(
                LocateFaultView::Unnamed,
            )
            &&& path::file_name_of(path) matches Some(name) ==> {
                let target = path::path_in(parent, name);
                &&& (forall|j: int|
                    0 <= j < grants.len() ==> !grant_covers(#[trigger] grants[j], target))
                    ==> found == Err::<WalkView, LocateFaultView>(
                    LocateFaultView::Outside { target },
                )
                &&& first_covering(grants, target, i) ==> {
                    let whole = path::components(target);
                    let rest = whole.skip(path::components(grants[i].root).len() as int);
                    &&& rest.len() > 0 && (forall|x: int|
                        0 <= x < rest.len() ==> (#[trigger] rest[x]) is Normal) ==> {
                        &&& found is Ok
                        &&& found->Ok_0.root == grants[i].root
                        &&& found->Ok_0.target == target
                        &&& as_components(found->Ok_0.directories.push(found->Ok_0.leaf)) == rest
                    }
                    &&& rest.len() == 0 && single && !grants[i].subtree ==> {
                        &&& found is Ok
                        &&& found->Ok_0.root == parent
                        &&& found->Ok_0.target == target
                        &&& found->Ok_0.directories.len() == 0
                        &&& found->Ok_0.leaf == name
                    }
                    &&& rest.len() == 0 && !(single && !grants[i].subtree) ==> found == Err::<
                        WalkView,
                        LocateFaultView,
                    >(
                        LocateFaultView::Blocked {
                            target,
                            reason: "relative path resolves to bundle root"@,
                        },
                    )
                    &&& 0 <= k < rest.len() && !(rest[k] is Normal) && (forall|x: int|
                        0 <= x < k ==> (#[trigger] rest[x]) is Normal) ==> found == Err::<
                        WalkView,
                        LocateFaultView,
                    >(
                        LocateFaultView::Blocked {
                            target,
                            reason: "disallowed path component "@ + match rest[k] {
                                ComponentView::RootDir => "RootDir"@,
                                ComponentView::CurDir => "CurDir"@,
                                ComponentView::ParentDir => "ParentDir"@,
                                ComponentView::Normal(_) => "Normal"@,
                            },
                        },
                    )
                }
            }
        }),
{
    if let Some(name) = path::file_name_of(path) {
        let target = path::path_in(parent, name);
        if forall|j: int| 0 <= j < grants.len() ==> !grant_covers(#[trigger] grants[j], target) {
            lemma_nothing_covers(grants, target, 0);
        }
        if first_covering(grants, target, i) {
            let whole = path::components(target);
            let rest = whole.skip(path::components(grants[i].root).len() as int);
            lemma_first_covering(grants, target, 0, i);
            lemma_plain_names(rest);
            if rest.len() == 0 {
                assert(rest =~= Seq::empty());
            }
            if forall|x: int| 0 <= x < rest.len() ==> (#[trigger] rest[x]) is Normal {
                lemma_all_plain(rest);
                let names = plain_names(rest)->Ok_0;
                if rest.len() > 0 {
                    assert(names.drop_last().push(names.last()) =~= names);
                }
            }
            if 0 <= k < rest.len() && !(rest[k] is Normal) && (forall|x: int|
                0 <= x < k ==> (#[trigger] rest[x]) is Normal) {
                lemma_first_odd(rest, k);
            }
        }
    }
}

/// A grant covers what lies at its root or beneath it: the target has the
/// components of the root, in order, and then any others.
pub proof fn law_grants_cover_what_lies_beneath(grant: GrantView, target: Seq<u8>)
    ensures
        grant_covers(grant, target) <==> {
            let root = path::components(grant.root);
            let whole = path::components(target);
            &&& root.len() <= whole.len()
            &&& forall|i: int| 0 <= i < root.len() ==> #[trigger] root[i] == whole[i]
        },
{
    let root = path::components(grant.root);
    let whole = path::components(target);
    if grant_covers(grant, target) {
        assert forall|i: int| 0 <= i < root.len() implies #[trigger] root[i] == whole[i] by {
            assert(whole.subrange(0, root.len() as int)[i] == whole[i]);
        }
    }
    if root.len() <= whole.len() && forall|i: int|
        0 <= i < root.len() ==> #[trigger] root[i] == whole[i] {
        assert(root =~= whole.subrange(0, root.len() as int));
    }
}

/// The grant of a pattern has the canonical path where there is one, and
/// otherwise the path as it is written, without its `/**`; and it is of a
/// subtree exactly if the pattern ends in `/**`.
pub proof fn law_grants_come_from_patterns(
    pattern: &str,
    canonical: Option<Vec<u8>>,
    grant: PathGrant,
    directory: Seq<char>,
)
    requires
        call_ensures(PathGrant::new, (pattern, canonical), grant),
    ensures
        canonical matches Some(root) ==> grant.root@ == root@,
        pattern@ == directory + "/**"@ ==> grant.subtree,
        !"/**"@.is_suffix_of(pattern@) ==> !grant.subtree,
        canonical is None && !"/**"@.is_suffix_of(pattern@) ==> grant.root@
            == vstd::utf8::encode_utf8(pattern@),
        canonical is None && pattern@ == directory + "/**"@ && !"/**"@.is_suffix_of(directory)
            ==> grant.root@ == vstd::utf8::encode_utf8(directory),
{
    reveal_strlit("/**");
    text::law_suffix_comes_off(pattern@, "/**"@, directory);
    text::law_trimming_takes_all_copies(pattern@, "/**"@);
    text::law_trimming_takes_all_copies(directory, "/**"@);
}

} // verus!
