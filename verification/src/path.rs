//! Unix paths as byte sequences.
//!
//! A path is split at slashes. Repeated slashes and `.` pieces do not count,
//! except for a `.` at the very beginning.

use crate::text;
use vstd::prelude::*;

verus! {

/// One component of a path.
pub enum Component {
    RootDir,
    CurDir,
    ParentDir,
    Normal(Vec<u8>),
}

/// A component as a mathematical value.
pub enum ComponentView {
    RootDir,
    CurDir,
    ParentDir,
    Normal(Seq<u8>),
}

impl View for Component {
    type V = ComponentView;

    open spec fn view(&self) -> ComponentView {
        match self {
            Component::RootDir => ComponentView::RootDir,
            Component::CurDir => ComponentView::CurDir,
            Component::ParentDir => ComponentView::ParentDir,
            Component::Normal(name) => ComponentView::Normal(name@),
        }
    }
}

/// The slash that separates components.
pub const SLASH: u8 = 47;

/// The dot that `.` and `..` are made of.
pub const DOT: u8 = 46;

/// The views of byte strings.
pub open spec fn byte_views(v: Seq<Vec<u8>>) -> Seq<Seq<u8>> {
    Seq::new(v.len(), |i: int| v[i]@)
}

/// The views of components.
pub open spec fn component_views(v: Seq<Component>) -> Seq<ComponentView> {
    Seq::new(v.len(), |i: int| v[i]@)
}

/// The piece is `.`.
pub open spec fn is_dot(piece: Seq<u8>) -> bool {
    piece == seq![DOT]
}

/// The piece is `..`.
pub open spec fn is_dot_dot(piece: Seq<u8>) -> bool {
    piece == seq![DOT, DOT]
}

/// Whether piece `i` counts as a component: it is not empty, and it is not a
/// `.` after the beginning.
pub open spec fn counts(pieces: Seq<Seq<u8>>, i: int) -> bool {
    pieces[i].len() > 0 && !(is_dot(pieces[i]) && i > 0)
}

/// The component that a piece stands for.
pub open spec fn component_of(piece: Seq<u8>) -> ComponentView {
    if is_dot(piece) {
        ComponentView::CurDir
    } else if is_dot_dot(piece) {
        ComponentView::ParentDir
    } else {
        ComponentView::Normal(piece)
    }
}

/// The components that the first `n` pieces stand for.
pub open spec fn named(pieces: Seq<Seq<u8>>, n: nat) -> Seq<ComponentView>
    decreases n,
{
    if n == 0 {
        Seq::empty()
    } else if counts(pieces, n - 1) {
        named(pieces, (n - 1) as nat).push(component_of(pieces[n - 1]))
    } else {
        named(pieces, (n - 1) as nat)
    }
}

/// The path begins at the root.
pub open spec fn rooted(path: Seq<u8>) -> bool {
    path.len() > 0 && path[0] == SLASH
}

/// The components of a path.
pub open spec fn components(path: Seq<u8>) -> Seq<ComponentView> {
    let pieces = text::pieces(path, SLASH);
    (if rooted(path) {
        seq![ComponentView::RootDir]
    } else {
        Seq::empty()
    }) + named(pieces, pieces.len())
}

/// The last of the first `n` pieces that counts.
pub open spec fn last_counting(pieces: Seq<Seq<u8>>, n: nat) -> Option<int>
    decreases n,
{
    if n == 0 {
        None
    } else if counts(pieces, n - 1) {
        Some(n - 1)
    } else {
        last_counting(pieces, (n - 1) as nat)
    }
}

/// The pieces with a slash between neighbours.
pub open spec fn joined(pieces: Seq<Seq<u8>>) -> Seq<u8>
    decreases pieces.len(),
{
    if pieces.len() == 0 {
        Seq::empty()
    } else if pieces.len() == 1 {
        pieces[0]
    } else {
        joined(pieces.drop_last()).push(SLASH) + pieces.last()
    }
}

/// The last component of a path, where it is a plain name.
pub open spec fn file_name_of(path: Seq<u8>) -> Option<Seq<u8>> {
    let pieces = text::pieces(path, SLASH);
    match last_counting(pieces, pieces.len()) {
        Some(k) => if component_of(pieces[k]) is Normal {
            Some(pieces[k])
        } else {
            None
        },
        None => None,
    }
}

/// The path without its last component, if it has one that is not the root.
pub open spec fn parent_of(path: Seq<u8>) -> Option<Seq<u8>> {
    let pieces = text::pieces(path, SLASH);
    match last_counting(pieces, pieces.len()) {
        Some(k) => match last_counting(pieces, k as nat) {
            Some(j) => Some(joined(pieces.take(j + 1))),
            None => Some(
                if rooted(path) {
                    seq![SLASH]
                } else {
                    Seq::empty()
                },
            ),
        },
        None => None,
    }
}

/// The directory in which to look for the last component of a path: its
/// parent, or the current directory where the parent is empty or missing.
pub open spec fn directory_of(path: Seq<u8>) -> Seq<u8> {
    match parent_of(path) {
        Some(parent) => if parent.len() > 0 {
            parent
        } else {
            seq![DOT]
        },
        None => seq![DOT],
    }
}

/// The path of `name` in `directory`.
pub open spec fn path_in(directory: Seq<u8>, name: Seq<u8>) -> Seq<u8> {
    if directory.len() > 0 && directory.last() != SLASH {
        directory.push(SLASH) + name
    } else {
        directory + name
    }
}

/// Copies `bytes`.
pub fn copy_bytes(bytes: &[u8]) -> (res: Vec<u8>)
    ensures
        res@ == bytes@,
{
    let mut out: Vec<u8> = Vec::new();
    append_bytes(&mut out, bytes, bytes.len());
    assert(bytes@.take(bytes@.len() as int) =~= bytes@);
    out
}

/// Appends the first `n` of `bytes`.
pub fn append_bytes(out: &mut Vec<u8>, bytes: &[u8], n: usize)
    requires
        n <= bytes@.len(),
    ensures
        final(out)@ == old(out)@ + bytes@.take(n as int),
{
    let ghost before = out@;
    let mut i: usize = 0;
    assert(before + bytes@.take(0) =~= before);
    while i < n
        invariant
            i <= n <= bytes@.len(),
            out@ == before + bytes@.take(i as int),
        decreases n - i,
    {
        out.push(bytes[i]);
        i = i + 1;
        assert(bytes@.take(i as int) =~= bytes@.take(i - 1).push(bytes@[i - 1]));
        assert(out@ =~= before + bytes@.take(i as int));
    }
}

/// Whether two byte strings are equal.
pub fn same_bytes(a: &[u8], b: &[u8]) -> (res: bool)
    ensures
        res == (a@ == b@),
{
    if a.len() != b.len() {
        return false;
    }
    let mut i: usize = 0;
    while i < a.len()
        invariant
            i <= a@.len() == b@.len(),
            forall|k: int| 0 <= k < i ==> a@[k] == b@[k],
        decreases a@.len() - i,
    {
        if a[i] != b[i] {
            return false;
        }
        i = i + 1;
    }
    assert(a@ =~= b@);
    true
}

/// The pieces of a path between slashes.
pub fn split_path(path: &[u8]) -> (res: Vec<Vec<u8>>)
    ensures
        byte_views(res@) == text::pieces(path@, SLASH),
{
    let mut out: Vec<Vec<u8>> = Vec::new();
    let mut piece: Vec<u8> = Vec::new();
    let mut i: usize = 0;
    proof {
        assert(path@.take(0).len() == 0);
        assert(byte_views(out@).push(piece@) =~= text::pieces(path@.take(0), SLASH));
    }
    while i < path.len()
        invariant
            i <= path@.len(),
            byte_views(out@).push(piece@) == text::pieces(path@.take(i as int), SLASH),
        decreases path@.len() - i,
    {
        let ghost before = byte_views(out@);
        let ghost current = piece@;
        let ghost next = path@.take(i + 1);
        assert(next.drop_last() =~= path@.take(i as int));
        if path[i] == SLASH {
            out.push(piece);
            piece = Vec::new();
            assert(byte_views(out@) =~= before.push(current));
        } else {
            piece.push(path[i]);
        }
        assert(byte_views(out@).push(piece@) =~= text::pieces(next, SLASH));
        i = i + 1;
    }
    let ghost before = byte_views(out@);
    out.push(piece);
    assert(path@.take(path@.len() as int) =~= path@);
    assert(byte_views(out@) =~= before.push(piece@));
    out
}

fn piece_is_dot(piece: &[u8]) -> (res: bool)
    ensures
        res == is_dot(piece@),
{
    let res = piece.len() == 1 && piece[0] == DOT;
    assert(res ==> piece@ =~= seq![DOT]);
    res
}

fn piece_is_dot_dot(piece: &[u8]) -> (res: bool)
    ensures
        res == is_dot_dot(piece@),
{
    let res = piece.len() == 2 && piece[0] == DOT && piece[1] == DOT;
    assert(res ==> piece@ =~= seq![DOT, DOT]);
    res
}

fn piece_counts(pieces: &Vec<Vec<u8>>, i: usize) -> (res: bool)
    requires
        i < pieces@.len(),
    ensures
        res == counts(byte_views(pieces@), i as int),
{
    pieces[i].len() > 0 && !(piece_is_dot(pieces[i].as_slice()) && i > 0)
}

fn make_component(piece: &[u8]) -> (res: Component)
    ensures
        res@ == component_of(piece@),
{
    if piece_is_dot(piece) {
        Component::CurDir
    } else if piece_is_dot_dot(piece) {
        Component::ParentDir
    } else {
        Component::Normal(copy_bytes(piece))
    }
}

/// The components of a path.
pub fn path_components(path: &[u8]) -> (res: Vec<Component>)
    ensures
        component_views(res@) == components(path@),
{
    let pieces = split_path(path);
    let ghost views = byte_views(pieces@);
    let mut out: Vec<Component> = Vec::new();
    let ghost head = if rooted(path@) {
        seq![ComponentView::RootDir]
    } else {
        Seq::empty()
    };
    if path.len() > 0 && path[0] == SLASH {
        out.push(Component::RootDir);
    }
    assert(component_views(out@) =~= head + named(views, 0));
    let mut i: usize = 0;
    while i < pieces.len()
        invariant
            i <= pieces@.len(),
            views == byte_views(pieces@),
            component_views(out@) == head + named(views, i as nat),
        decreases pieces@.len() - i,
    {
        let ghost before = component_views(out@);
        if piece_counts(&pieces, i) {
            let component = make_component(pieces[i].as_slice());
            out.push(component);
            assert(component_views(out@) =~= before.push(component@));
        }
        i = i + 1;
        assert(component_views(out@) =~= head + named(views, i as nat));
    }
    out
}

/// The last of the first `n` pieces that counts.
fn find_last_counting(pieces: &Vec<Vec<u8>>, n: usize) -> (res: Option<usize>)
    requires
        n <= pieces@.len(),
    ensures
        match res {
            Some(k) => k < n && last_counting(byte_views(pieces@), n as nat) == Some(k as int),
            None => last_counting(byte_views(pieces@), n as nat) is None,
        },
{
    let mut k: usize = n;
    while k > 0
        invariant
            k <= n <= pieces@.len(),
            last_counting(byte_views(pieces@), n as nat) == last_counting(
                byte_views(pieces@),
                k as nat,
            ),
        decreases k,
    {
        if piece_counts(pieces, k - 1) {
            return Some(k - 1);
        }
        k = k - 1;
    }
    None
}

/// The first `n` pieces with a slash between neighbours.
fn join_pieces(pieces: &Vec<Vec<u8>>, n: usize) -> (res: Vec<u8>)
    requires
        n <= pieces@.len(),
    ensures
        res@ == joined(byte_views(pieces@).take(n as int)),
{
    let ghost views = byte_views(pieces@);
    let mut out: Vec<u8> = Vec::new();
    let mut i: usize = 0;
    while i < n
        invariant
            i <= n <= pieces@.len(),
            views == byte_views(pieces@),
            out@ == joined(views.take(i as int)),
        decreases n - i,
    {
        let ghost before = out@;
        if i > 0 {
            out.push(SLASH);
        }
        append_bytes(&mut out, pieces[i].as_slice(), pieces[i].len());
        proof {
            let piece = pieces@[i as int]@;
            assert(piece.take(piece.len() as int) =~= piece);
            assert(views.take(i + 1).drop_last() =~= views.take(i as int));
            assert(views.take(i + 1).last() == piece);
            if i == 0 {
                assert(out@ =~= piece);
            } else {
                assert(out@ =~= before.push(SLASH) + piece);
            }
        }
        i = i + 1;
    }
    out
}

/// The last component of a path, where it is a plain name.
pub fn file_name(path: &[u8]) -> (res: Option<Vec<u8>>)
    ensures
        match res {
            Some(name) => file_name_of(path@) == Some(name@),
            None => file_name_of(path@) is None,
        },
{
    let pieces = split_path(path);
    match find_last_counting(&pieces, pieces.len()) {
        Some(k) => {
            let piece = pieces[k].as_slice();
            if piece_is_dot(piece) || piece_is_dot_dot(piece) {
                None
            } else {
                Some(copy_bytes(piece))
            }
        },
        None => None,
    }
}

/// The path without its last component, if it has one that is not the root.
pub fn parent(path: &[u8]) -> (res: Option<Vec<u8>>)
    ensures
        match res {
            Some(p) => parent_of(path@) == Some(p@),
            None => parent_of(path@) is None,
        },
{
    let pieces = split_path(path);
    match find_last_counting(&pieces, pieces.len()) {
        Some(k) => match find_last_counting(&pieces, k) {
            Some(j) => Some(join_pieces(&pieces, j + 1)),
            None => {
                let mut out: Vec<u8> = Vec::new();
                if path.len() > 0 && path[0] == SLASH {
                    out.push(SLASH);
                    assert(out@ =~= seq![SLASH]);
                }
                Some(out)
            },
        },
        None => None,
    }
}

/// The directory in which to look for the last component of a path.
pub fn directory(path: &[u8]) -> (res: Vec<u8>)
    ensures
        res@ == directory_of(path@),
{
    match parent(path) {
        Some(p) => {
            if p.len() > 0 {
                return p;
            }
        },
        None => {},
    }
    let mut out: Vec<u8> = Vec::new();
    out.push(DOT);
    assert(out@ =~= seq![DOT]);
    out
}

/// The path of `name` in `directory`.
pub fn join(directory: &[u8], name: &[u8]) -> (res: Vec<u8>)
    ensures
        res@ == path_in(directory@, name@),
{
    let mut out = copy_bytes(directory);
    if directory.len() > 0 && directory[directory.len() - 1] != SLASH {
        out.push(SLASH);
    }
    append_bytes(&mut out, name, name.len());
    assert(name@.take(name@.len() as int) =~= name@);
    out
}

/// Whether the components of `path` begin with the components of `prefix`.
pub fn has_prefix(path: &Vec<Component>, prefix: &Vec<Component>) -> (res: bool)
    ensures
        res == component_views(prefix@).is_prefix_of(component_views(path@)),
{
    let ghost a = component_views(path@);
    let ghost b = component_views(prefix@);
    if prefix.len() > path.len() {
        return false;
    }
    let mut i: usize = 0;
    while i < prefix.len()
        invariant
            i <= prefix@.len() <= path@.len(),
            a == component_views(path@),
            b == component_views(prefix@),
            forall|k: int| 0 <= k < i ==> a[k] == b[k],
        decreases prefix@.len() - i,
    {
        assert(a[i as int] == path@[i as int]@);
        assert(b[i as int] == prefix@[i as int]@);
        if !same_component(&path[i], &prefix[i]) {
            assert(a.subrange(0, b.len() as int)[i as int] != b[i as int]);
            return false;
        }
        i = i + 1;
    }
    assert(b =~= a.subrange(0, b.len() as int));
    true
}

fn same_component(a: &Component, b: &Component) -> (res: bool)
    ensures
        res == (a@ == b@),
{
    match (a, b) {
        (Component::RootDir, Component::RootDir) => true,
        (Component::CurDir, Component::CurDir) => true,
        (Component::ParentDir, Component::ParentDir) => true,
        (Component::Normal(x), Component::Normal(y)) => same_bytes(x.as_slice(), y.as_slice()),
        _ => false,
    }
}

/// A name that stays where it is put: it is not empty, not `.`, not `..`, and
/// has no slash in it.
pub open spec fn is_plain_name(name: Seq<u8>) -> bool {
    &&& name.len() > 0
    &&& !is_dot(name)
    &&& !is_dot_dot(name)
    &&& !name.contains(SLASH)
}

proof fn lemma_named_plain(pieces: Seq<Seq<u8>>, n: nat)
    requires
        n <= pieces.len(),
        forall|i: int| 0 <= i < pieces.len() ==> !(#[trigger] pieces[i]).contains(SLASH),
    ensures
        forall|i: int|
            0 <= i < named(pieces, n).len() ==> ((#[trigger] named(pieces, n)[i]) matches
                ComponentView::Normal(name) ==> is_plain_name(name)),
    decreases n,
{
    if n > 0 {
        lemma_named_plain(pieces, (n - 1) as nat);
    }
}

/// The names among the components of a path are plain names.
pub proof fn law_component_names_are_plain(path: Seq<u8>, i: int)
    requires
        0 <= i < components(path).len(),
        components(path)[i] is Normal,
    ensures
        is_plain_name(components(path)[i]->Normal_0),
{
    let pieces = text::pieces(path, SLASH);
    text::lemma_pieces(path, SLASH);
    lemma_named_plain(pieces, pieces.len());
    if rooted(path) {
        assert(components(path)[i] == named(pieces, pieces.len())[i - 1]);
    } else {
        assert(components(path)[i] == named(pieces, pieces.len())[i]);
    }
}

/// The last component of a path that has a file name is that name, and the
/// name is a plain one.
pub proof fn law_file_name_is_the_last_component(path: Seq<u8>)
    requires
        file_name_of(path) is Some,
    ensures
        is_plain_name(file_name_of(path).unwrap()),
        components(path).len() > 0,
        components(path).last() == ComponentView::Normal(file_name_of(path).unwrap()),
{
    let pieces = text::pieces(path, SLASH);
    text::lemma_pieces(path, SLASH);
    lemma_last_named(pieces, pieces.len());
    law_component_names_are_plain(path, components(path).len() - 1);
}

proof fn lemma_last_named(pieces: Seq<Seq<u8>>, n: nat)
    requires
        n <= pieces.len(),
    ensures
        match last_counting(pieces, n) {
            Some(k) => {
                &&& 0 <= k < n
                &&& named(pieces, n).len() > 0
                &&& named(pieces, n).last() == component_of(pieces[k])
            },
            None => named(pieces, n).len() == 0,
        },
    decreases n,
{
    if n > 0 {
        lemma_last_named(pieces, (n - 1) as nat);
    }
}

proof fn lemma_named_prefix(pieces: Seq<Seq<u8>>, last: Seq<u8>, n: nat)
    requires
        n <= pieces.len(),
    ensures
        named(pieces.push(last), n) == named(pieces, n),
    decreases n,
{
    if n > 0 {
        lemma_named_prefix(pieces, last, (n - 1) as nat);
        assert(pieces.push(last)[n - 1] == pieces[n - 1]);
    }
}

/// The path of a plain name in a directory has the components of the directory
/// and then the name.
pub proof fn law_entry_extends_its_directory(directory: Seq<u8>, name: Seq<u8>)
    requires
        is_plain_name(name),
    ensures
        components(path_in(directory, name)) == components(directory).push(
            ComponentView::Normal(name),
        ),
{
    let whole = path_in(directory, name);
    let parts = text::pieces(directory, SLASH);
    assert(name.contains(name[0]));
    if directory.len() == 0 {
        assert(whole =~= name);
        text::lemma_only_piece(name, SLASH);
        assert(parts =~= seq![Seq::<u8>::empty()]);
        reveal_with_fuel(named, 2);
        assert(components(whole) =~= seq![ComponentView::Normal(name)]);
        assert(components(directory) =~= Seq::empty());
    } else if directory.last() != SLASH {
        text::lemma_last_piece(directory, SLASH, name);
        lemma_named_prefix(parts, name, parts.len());
        text::lemma_pieces(directory, SLASH);
        assert(parts.push(name)[parts.len() as int] == name);
        assert(components(whole) =~= components(directory).push(ComponentView::Normal(name)));
    } else {
        let front = directory.drop_last();
        let shorter = text::pieces(front, SLASH);
        assert(directory =~= front.push(SLASH));
        text::lemma_last_piece(front, SLASH, name);
        lemma_named_prefix(shorter, name, shorter.len());
        lemma_named_prefix(shorter, Seq::empty(), shorter.len());
        text::lemma_pieces(front, SLASH);
        assert(shorter.push(name)[shorter.len() as int] == name);
        assert(shorter.push(Seq::empty())[shorter.len() as int] == Seq::<u8>::empty());
        assert(whole[0] == directory[0]);
        assert(components(whole) =~= components(directory).push(ComponentView::Normal(name)));
    }
}

/// The components of a path, told from its end. A path without slashes is one
/// component, or none if it is empty. After a slash, an empty piece and a `.`
/// add nothing, `..` leads up, and everything else is a name; a slash at the
/// very beginning is the root.
pub proof fn law_components_from_the_end(path: Seq<u8>, piece: Seq<u8>)
    requires
        !piece.contains(SLASH),
    ensures
        components(piece) == if piece.len() == 0 {
            Seq::empty()
        } else if piece == seq![DOT] {
            seq![ComponentView::CurDir]
        } else if piece == seq![DOT, DOT] {
            seq![ComponentView::ParentDir]
        } else {
            seq![ComponentView::Normal(piece)]
        },
        components(path.push(SLASH) + piece) == (if path.len() == 0 {
            seq![ComponentView::RootDir]
        } else {
            components(path)
        }) + (if piece.len() == 0 || piece == seq![DOT] {
            Seq::empty()
        } else if piece == seq![DOT, DOT] {
            seq![ComponentView::ParentDir]
        } else {
            seq![ComponentView::Normal(piece)]
        }),
{
    let whole = path.push(SLASH) + piece;
    let parts = text::pieces(path, SLASH);
    if piece.len() > 0 {
        assert(piece.contains(piece[0]));
    }
    text::lemma_only_piece(piece, SLASH);
    text::lemma_last_piece(path, SLASH, piece);
    text::lemma_pieces(path, SLASH);
    lemma_named_prefix(parts, piece, parts.len());
    assert(parts.push(piece)[parts.len() as int] == piece);
    assert(seq![piece][0] == piece);
    reveal_with_fuel(named, 2);
    assert(components(piece) =~= if piece.len() == 0 {
        Seq::empty()
    } else if piece == seq![DOT] {
        seq![ComponentView::CurDir]
    } else if piece == seq![DOT, DOT] {
        seq![ComponentView::ParentDir]
    } else {
        seq![ComponentView::Normal(piece)]
    });
    let more: Seq<ComponentView> = if piece.len() == 0 || piece == seq![DOT] {
        Seq::empty()
    } else if piece == seq![DOT, DOT] {
        seq![ComponentView::ParentDir]
    } else {
        seq![ComponentView::Normal(piece)]
    };
    assert(named(parts.push(piece), parts.len() + 1) =~= named(parts, parts.len()) + more);
    if path.len() == 0 {
        assert(parts =~= seq![Seq::<u8>::empty()]);
        assert(parts[0].len() == 0);
        assert(named(parts, 1) =~= Seq::empty());
        assert(whole[0] == SLASH);
        assert(components(whole) =~= seq![ComponentView::RootDir] + more);
    } else {
        assert(whole[0] == path[0]);
        assert(components(whole) =~= components(path) + more);
    }
}

/// A path names a file exactly if its last component is a plain name, and that
/// is the file name.
pub proof fn law_file_name_exactly_when(path: Seq<u8>)
    ensures
        file_name_of(path) == if components(path).len() > 0 {
            match components(path).last() {
                ComponentView::Normal(name) => Some(name),
                _ => None,
            }
        } else {
            None
        },
{
    let pieces = text::pieces(path, SLASH);
    lemma_last_named(pieces, pieces.len());
}

proof fn lemma_joined_is_glued(parts: Seq<Seq<u8>>)
    ensures
        joined(parts) == text::glued(parts, SLASH),
    decreases parts.len(),
{
    if parts.len() > 1 {
        lemma_joined_is_glued(parts.drop_last());
    }
}

proof fn lemma_pieces_of_joined(parts: Seq<Seq<u8>>)
    requires
        parts.len() > 0,
        forall|i: int| 0 <= i < parts.len() ==> !(#[trigger] parts[i]).contains(SLASH),
    ensures
        text::pieces(joined(parts), SLASH) == parts,
        rooted(joined(parts)) <==> parts.len() > 1 && parts[0].len() == 0,
    decreases parts.len(),
{
    if parts.len() == 1 {
        text::lemma_only_piece(parts[0], SLASH);
        assert(parts =~= seq![parts[0]]);
        if parts[0].len() > 0 {
            assert(parts[0].contains(parts[0][0]));
        }
    } else {
        let front = parts.drop_last();
        assert forall|i: int| 0 <= i < front.len() implies !(#[trigger] front[i]).contains(
            SLASH,
        ) by {
            assert(front[i] == parts[i]);
        }
        lemma_pieces_of_joined(front);
        assert(parts.last() == parts[parts.len() - 1]);
        text::lemma_last_piece(joined(front), SLASH, parts.last());
        assert(front.push(parts.last()) =~= parts);
        let whole = joined(front).push(SLASH) + parts.last();
        assert(joined(parts) == whole);
        if joined(front).len() > 0 {
            assert(whole[0] == joined(front)[0]);
            if front.len() == 1 {
                assert(joined(front) == parts[0]);
                assert(parts[0].contains(parts[0][0]));
            }
        } else {
            assert(whole[0] == SLASH);
            if front.len() > 1 {
                assert(joined(front).len() > 0);
            }
            assert(front.len() == 1);
            assert(joined(front) == parts[0]);
        }
    }
}

proof fn lemma_named_take(pieces: Seq<Seq<u8>>, m: int, n: nat)
    requires
        n <= m <= pieces.len(),
    ensures
        named(pieces.take(m), n) == named(pieces, n),
    decreases n,
{
    if n > 0 {
        lemma_named_take(pieces, m, (n - 1) as nat);
        assert(pieces.take(m)[n - 1] == pieces[n - 1]);
    }
}

proof fn lemma_named_to_last(pieces: Seq<Seq<u8>>, n: nat)
    requires
        n <= pieces.len(),
    ensures
        match last_counting(pieces, n) {
            Some(k) => {
                &&& 0 <= k < n
                &&& counts(pieces, k)
                &&& named(pieces, n) == named(pieces, k as nat).push(component_of(pieces[k]))
                &&& named(pieces, n) == named(pieces, (k + 1) as nat)
            },
            None => named(pieces, n).len() == 0,
        },
    decreases n,
{
    if n > 0 {
        lemma_named_to_last(pieces, (n - 1) as nat);
    }
}

proof fn lemma_joined_prefix(parts: Seq<Seq<u8>>, m: int)
    requires
        0 < m <= parts.len(),
    ensures
        joined(parts.take(m)).is_prefix_of(joined(parts)),
    decreases parts.len() - m,
{
    let shorter = joined(parts.take(m));
    if m == parts.len() {
        assert(parts.take(m) =~= parts);
        assert(shorter =~= shorter.subrange(0, shorter.len() as int));
    } else {
        lemma_joined_prefix(parts, m + 1);
        let longer = joined(parts.take(m + 1));
        assert(parts.take(m + 1).drop_last() =~= parts.take(m));
        assert(longer == shorter.push(SLASH) + parts.take(m + 1).last());
        let whole = joined(parts);
        assert(longer =~= whole.subrange(0, longer.len() as int));
        assert forall|i: int| 0 <= i < shorter.len() implies shorter[i] == whole[i] by {
            assert(longer[i] == shorter[i]);
            assert(whole.subrange(0, longer.len() as int)[i] == whole[i]);
        }
        assert(shorter =~= whole.subrange(0, shorter.len() as int));
    }
}

/// The directory of a path is the path without its last component: it has the
/// other components and stands at the beginning of the path. Where the path has
/// no other component, or none but the root, it is the current directory.
pub proof fn law_directory_has_the_other_components(path: Seq<u8>)
    ensures
        ({
            let all = components(path);
            let directory = directory_of(path);
            if all.len() > 1 {
                &&& components(directory) == all.drop_last()
                &&& directory.is_prefix_of(path)
            } else {
                directory == seq![DOT]
            }
        }),
{
    let pieces = text::pieces(path, SLASH);
    let n = pieces.len();
    let all = components(path);
    let directory = directory_of(path);
    text::law_pieces_make_the_whole(path, SLASH);
    text::lemma_pieces(path, SLASH);
    lemma_joined_is_glued(pieces);
    lemma_pieces_of_joined(pieces);
    lemma_named_to_last(pieces, n);
    match last_counting(pieces, n) {
        Some(k) => {
            lemma_named_to_last(pieces, k as nat);
            match last_counting(pieces, k as nat) {
                Some(j) => {
                    let front = pieces.take(j + 1);
                    assert forall|i: int| 0 <= i < front.len() implies !(
                    #[trigger] front[i]).contains(SLASH) by {
                        assert(front[i] == pieces[i]);
                    }
                    lemma_pieces_of_joined(front);
                    lemma_named_take(pieces, j + 1, (j + 1) as nat);
                    lemma_joined_prefix(pieces, j + 1);
                    assert(front[0] == pieces[0]);
                    assert(counts(pieces, j));
                    assert(named(pieces, k as nat) == named(pieces, (j + 1) as nat));
                    lemma_last_named(pieces, (j + 1) as nat);
                    assert(joined(front).len() > 0) by {
                        if front.len() == 1 {
                            assert(joined(front) == pieces[0]);
                        }
                    }
                    assert(directory == joined(front));
                    assert(components(directory) =~= all.drop_last());
                },
                None => {
                    if rooted(path) {
                        text::lemma_only_piece(Seq::<u8>::empty(), SLASH);
                        law_components_from_the_end(Seq::empty(), Seq::empty());
                        assert(Seq::<u8>::empty().push(SLASH) + Seq::<u8>::empty()
                            =~= seq![SLASH]);
                        assert(components(seq![SLASH]) =~= seq![ComponentView::RootDir]);
                        assert(directory =~= path.subrange(0, 1));
                        assert(components(directory) =~= all.drop_last());
                    }
                },
            }
        },
        None => {},
    }
}

/// The path of a name in a directory begins with the directory and ends with
/// the name, and at most one slash stands between them.
pub proof fn law_entry_path_holds_both(directory: &[u8], name: &[u8], path: Vec<u8>)
    requires
        call_ensures(join, (directory, name), path),
    ensures
        directory@.is_prefix_of(path@),
        name@.is_suffix_of(path@),
        path@.len() == directory@.len() + name@.len() + (if directory@.len() > 0
            && directory@.last() != SLASH {
            1int
        } else {
            0
        }),
        directory@.len() > 0 && directory@.last() != SLASH ==> path@[directory@.len() as int]
            == SLASH,
{
    assert(directory@ =~= path@.subrange(0, directory@.len() as int));
    assert(name@ =~= path@.subrange(path@.len() - name@.len(), path@.len() as int));
}

} // verus!
