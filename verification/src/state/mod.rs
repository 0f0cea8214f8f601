//! What a node remembers between records: the head it signed, the slots it
//! spent and the newest version it accepted.
use crate::text::{chars_of, is_text, joined, push_char, text_of};
use vstd::prelude::*;
use vstd::string::*;

pub mod freshness;
pub mod slot_counter;
pub mod status_list_head;

verus! {

/// What was found where a state file belongs.
pub enum Stored {
    /// A file with these contents.
    Bytes(Vec<u8>),
    /// Nothing, and what the system says of that.
    Missing(String),
    /// Something that could not be read, and why.
    Unreadable(String),
}

/// What came of asking for the lock that guards a state file.
pub enum Locking {
    /// The lock is held.
    Acquired,
    /// Another process holds it.
    WouldBlock,
    /// It could not be asked for, and why.
    Failed(String),
}

/// What is said of a state file that could not be read.
pub(crate) fn cannot_read(path: &str, why: &str) -> (text: String)
    ensures
        text@ == "cannot read "@ + path@ + ": "@ + why@,
{
    let mut text: String = joined("cannot read ", path);
    vstd::string::StringExecFns::append(&mut text, ": ");
    vstd::string::StringExecFns::append(&mut text, why);
    text
}

// ---- paths -------------------------------------------------------------------

/// A path without the separators and steps to the same directory at its end.
pub open spec fn trimmed(path: Seq<char>) -> Seq<char>
    decreases path.len(),
{
    if path.len() > 0 && (path.last() == '/' || path.len() > 1 && path.last() == '.'
        && path[path.len() - 2] == '/') {
        trimmed(path.drop_last())
    } else {
        path
    }
}

/// Where the last component of a path begins.
pub open spec fn component_start(path: Seq<char>) -> nat
    decreases path.len(),
{
    if path.len() == 0 || path.last() == '/' {
        path.len()
    } else {
        component_start(path.drop_last())
    }
}

/// The last component of a path.
pub open spec fn component(path: Seq<char>) -> Seq<char> {
    trimmed(path).subrange(
        component_start(trimmed(path)) as int,
        trimmed(path).len() as int,
    )
}

/// Whether a component names something rather than stepping to this or the parent
/// directory.
pub open spec fn is_name(component: Seq<char>) -> bool {
    component.len() > 0 && component != seq!['.'] && component != seq!['.', '.']
}

/// The directory that the last component of a path lies in; nothing for the directory
/// that paths start from.
pub open spec fn directory(path: Seq<char>) -> Seq<char> {
    let before = trimmed(path).subrange(0, component_start(trimmed(path)) as int);
    if before.len() > 0 && trimmed(before).len() == 0 {
        seq!['/']
    } else {
        trimmed(before)
    }
}

/// A component inside a directory.
pub open spec fn inside(directory: Seq<char>, component: Seq<char>) -> Seq<char> {
    if directory.len() == 0 || directory.last() == '/' {
        directory + component
    } else {
        directory.push('/') + component
    }
}

/// The path that siblings of `path` begin with: its directory and its last component, or
/// a component without a name where the last one steps to a directory.
pub open spec fn place(path: Seq<char>) -> Seq<char> {
    if is_name(component(path)) {
        inside(directory(path), component(path))
    } else {
        inside(path, Seq::empty())
    }
}

/// The file beside `path` whose name has `suffix` behind a dot.
pub open spec fn sibling_path(path: Seq<char>, suffix: Seq<char>) -> Seq<char> {
    place(path) + "."@ + suffix
}

/// How long the first `upto` characters are without the separators and steps to the same
/// directory at their end.
fn trimmed_len(path: &[char], upto: usize) -> (n: usize)
    requires
        upto <= path@.len(),
    ensures
        n <= upto,
        path@.subrange(0, n as int) == trimmed(path@.subrange(0, upto as int)),
{
    let mut n: usize = upto;
    while n > 0 && (path[n - 1] == '/' || n > 1 && path[n - 1] == '.' && path[n - 2] == '/')
        invariant
            n <= upto <= path@.len(),
            trimmed(path@.subrange(0, n as int)) == trimmed(path@.subrange(0, upto as int)),
        decreases n,
    {
        assert(path@.subrange(0, n as int).drop_last() =~= path@.subrange(0, n - 1));
        n = n - 1;
    }
    n
}

/// Where the last component of the first `upto` characters begins.
fn last_component(path: &[char], upto: usize) -> (at: usize)
    requires
        upto <= path@.len(),
    ensures
        at <= upto,
        at == component_start(path@.subrange(0, upto as int)),
{
    let mut at: usize = upto;
    while at > 0 && path[at - 1] != '/'
        invariant
            at <= upto <= path@.len(),
            component_start(path@.subrange(0, at as int)) == component_start(
                path@.subrange(0, upto as int),
            ),
        decreases at,
    {
        assert(path@.subrange(0, at as int).drop_last() =~= path@.subrange(0, at - 1));
        at = at - 1;
    }
    at
}

/// Puts a component behind a directory.
fn put_inside(directory: &[char], component: &[char]) -> (text: String)
    ensures
        text@ == inside(directory@, component@),
{
    let mut text: String = text_of(directory);
    let n: usize = directory.len();
    if n > 0 && directory[n - 1] != '/' {
        push_char(&mut text, '/');
    }
    vstd::string::StringExecFns::append(&mut text, text_of(component).as_str());
    text
}

/// The file beside `path` whose name has `suffix` behind a dot. An extension that
/// is already there stays, so that dotted names do not share a lock or a
/// temporary file. Components are separated by `/`.
pub fn sibling(path: &str, suffix: &str) -> (other: String)
    ensures
        other@ == sibling_path(path@, suffix@),
{
    let chars = chars_of(path);
    let whole = chars.as_slice();
    assert(path@.subrange(0, path@.len() as int) =~= path@);
    let end: usize = trimmed_len(whole, whole.len());
    let start: usize = last_component(whole, end);
    let ghost short = trimmed(path@);
    let last = &whole[start..end];
    assert(last@ =~= component(path@));
    let mut other: String = if last.len() > 0 && !is_text(last, ".") && !is_text(last, "..") {
        let before: usize = trimmed_len(whole, start);
        assert(short.subrange(0, start as int) =~= path@.subrange(0, start as int));
        if start > 0 && before == 0 {
            let root: [char; 1] = ['/'];
            assert(root@ =~= seq!['/']);
            assert(directory(path@) == root@);
            put_inside(root.as_slice(), last)
        } else {
            let parent = &whole[0..before];
            assert(parent@ =~= directory(path@));
            put_inside(parent, last)
        }
    } else {
        let empty: Vec<char> = Vec::new();
        assert(empty@ =~= Seq::<char>::empty());
        put_inside(whole, empty.as_slice())
    };
    proof {
        reveal_strlit(".");
        reveal_strlit("..");
        assert("."@ =~= seq!['.']);
        assert(".."@ =~= seq!['.', '.']);
    }
    vstd::string::StringExecFns::append(&mut other, ".");
    vstd::string::StringExecFns::append(&mut other, suffix);
    other
}

/// Siblings of different files are different files: two paths share one only where both
/// name the same component in the same directory.
pub proof fn law_siblings_do_not_alias(a: Seq<char>, b: Seq<char>, suffix: Seq<char>)
    requires
        sibling_path(a, suffix) == sibling_path(b, suffix),
    ensures
        place(a) == place(b),
{
    reveal_strlit(".");
    let (x, y) = (sibling_path(a, suffix), sibling_path(b, suffix));
    assert(x.len() == place(a).len() + 1 + suffix.len());
    assert(y.len() == place(b).len() + 1 + suffix.len());
    assert(x.subrange(0, place(a).len() as int) =~= place(a));
    assert(y.subrange(0, place(b).len() as int) =~= place(b));
}

/// A name in a directory, written plainly, is what its siblings begin with, so that they
/// are that path with the suffix behind it.
pub proof fn law_a_plain_path_keeps_its_place(dir: Seq<char>, name: Seq<char>)
    requires
        dir.len() > 0,
        trimmed(dir) == dir,
        is_name(name),
        !name.contains('/'),
    ensures
        place(name) == name,
        place(seq!['/'] + name) == seq!['/'] + name,
        place(dir.push('/') + name) == dir.push('/') + name,
{
    lemma_named(Seq::empty(), name);
    assert(Seq::<char>::empty() + name =~= name);
    assert(name.subrange(0, 0) =~= Seq::<char>::empty());
    assert(inside(Seq::empty(), name) =~= name);
    let root = seq!['/'];
    lemma_named(root, name);
    assert((root + name).subrange(0, 1) =~= root);
    assert(root.drop_last() =~= Seq::<char>::empty());
    let before = dir.push('/');
    lemma_named(before, name);
    assert((before + name).subrange(0, before.len() as int) =~= before);
    assert(before.drop_last() =~= dir);
    lemma_trimmed_len(dir.drop_last());
}

proof fn lemma_trimmed_len(path: Seq<char>)
    ensures
        trimmed(path).len() <= path.len(),
    decreases path.len(),
{
    if path.len() > 0 {
        lemma_trimmed_len(path.drop_last());
    }
}

/// The last component of a path that ends in `name`.
proof fn lemma_named(before: Seq<char>, name: Seq<char>)
    requires
        before.len() == 0 || before.last() == '/',
        is_name(name),
        !name.contains('/'),
    ensures
        trimmed(before + name) == before + name,
        component_start(before + name) == before.len(),
        component(before + name) == name,
{
    let path = before + name;
    assert(path.last() == name.last());
    assert(name.contains(name.last()));
    if path.len() > 1 && path.last() == '.' && path[path.len() - 2] == '/' {
        if name.len() == 1 {
            assert(name =~= seq!['.']);
        } else {
            assert(name[name.len() - 2] == '/');
        }
    }
    lemma_component_start(before, name, name.len() as int);
    assert(name.subrange(0, name.len() as int) =~= name);
    assert(path.subrange(before.len() as int, path.len() as int) =~= name);
}

proof fn lemma_component_start(before: Seq<char>, name: Seq<char>, n: int)
    requires
        before.len() == 0 || before.last() == '/',
        !name.contains('/'),
        0 <= n <= name.len(),
    ensures
        component_start(before + name.subrange(0, n)) == before.len(),
    decreases n,
{
    let path = before + name.subrange(0, n);
    if n == 0 {
        assert(path =~= before);
    } else {
        assert(name.contains(name[n - 1]));
        assert(path.drop_last() =~= before + name.subrange(0, n - 1));
        lemma_component_start(before, name, n - 1);
    }
}

/// The sibling of a file written plainly is that path with a dot and the suffix behind it.
pub proof fn law_a_sibling_stands_beside_its_file(
    dir: Seq<char>,
    name: Seq<char>,
    suffix: Seq<char>,
)
    requires
        dir.len() > 0,
        trimmed(dir) == dir,
        is_name(name),
        !name.contains('/'),
    ensures
        sibling_path(name, suffix) == name + "."@ + suffix,
        sibling_path(seq!['/'] + name, suffix) == seq!['/'] + name + "."@ + suffix,
        sibling_path(dir.push('/') + name, suffix) == dir.push('/') + name + "."@ + suffix,
{
    law_a_plain_path_keeps_its_place(dir, name);
}

/// Separators and steps to the same directory at the end of a path do not count: the sibling
/// is that of the path without them.
pub proof fn law_a_trailing_separator_does_not_count(path: Seq<char>, suffix: Seq<char>)
    requires
        is_name(component(path)),
    ensures
        sibling_path(path.push('/'), suffix) == sibling_path(path, suffix),
        sibling_path(path.push('/').push('.'), suffix) == sibling_path(path, suffix),
{
    let slashed = path.push('/');
    assert(slashed.drop_last() =~= path);
    assert(slashed.push('.').drop_last() =~= slashed);
    assert(trimmed(slashed) == trimmed(path));
    assert(trimmed(slashed.push('.')) == trimmed(slashed));
}

} // verus!
