//! Paths as texts whose components are separated by slashes.

use crate::text::{chars_of, matches_at, occurs_at, push_all, string_between, string_of};
use vstd::prelude::*;

verus! {

/// `root` and `rel` joined by one slash, which is left out where `root` is
/// empty or already ends in one.
pub open spec fn joined(root: Seq<char>, rel: Seq<char>) -> Seq<char> {
    if root.len() == 0 {
        rel
    } else if root.last() == '/' {
        root + rel
    } else {
        root + seq!['/'] + rel
    }
}

/// What is left of `path` once the leading `root` and the slash after it are
/// taken away, or `None` where `path` does not lie under `root`.
pub open spec fn relative_to(path: Seq<char>, root: Seq<char>) -> Option<Seq<char>> {
    if root.len() == 0 {
        Some(path)
    } else if path == root {
        Some(Seq::empty())
    } else if root.last() == '/' {
        if occurs_at(path, root, 0) {
            Some(path.skip(root.len() as int))
        } else {
            None
        }
    } else if occurs_at(path, root.push('/'), 0) {
        Some(path.skip(root.len() as int + 1))
    } else {
        None
    }
}

/// The position of the last `c` in `s`, or -1 where there is none.
pub open spec fn last_index(s: Seq<char>, c: char) -> int
    decreases s.len(),
{
    if s.len() == 0 {
        -1
    } else if s.last() == c {
        s.len() - 1
    } else {
        last_index(s.drop_last(), c)
    }
}

/// What stands before the last slash of `path`, if it has one.
pub open spec fn parent_of(path: Seq<char>) -> Option<Seq<char>> {
    let i = last_index(path, '/');
    if i >= 0 {
        Some(path.take(i))
    } else {
        None
    }
}

/// A path that was joined to a root lies under that root, and what is left
/// of it without the root is what was joined.
pub proof fn lemma_joined_relative(root: Seq<char>, rel: Seq<char>)
    ensures
        relative_to(joined(root, rel), root) == Some(rel),
{
    let path = joined(root, rel);
    if root.len() == 0 {
    } else if root.last() == '/' {
        if path == root {
            assert(rel.len() == 0);
            assert(rel =~= Seq::<char>::empty());
        } else {
            assert(path.subrange(0, root.len() as int) == root);
            assert(path.skip(root.len() as int) == rel);
        }
    } else {
        let head = root.push('/');
        assert(path.len() == root.len() + 1 + rel.len());
        assert(path.subrange(0, head.len() as int) == head);
        assert(path.skip(root.len() as int + 1) == rel);
    }
}

/// `last_index` points at the last occurrence and nowhere behind it.
pub proof fn lemma_last_index(s: Seq<char>, c: char)
    ensures
        -1 <= last_index(s, c) < s.len(),
        last_index(s, c) >= 0 ==> s[last_index(s, c)] == c,
        forall|j: int| last_index(s, c) < j < s.len() ==> s[j] != c,
    decreases s.len(),
{
    if s.len() > 0 && s.last() != c {
        lemma_last_index(s.drop_last(), c);
        assert forall|j: int| last_index(s, c) < j < s.len() implies s[j] != c by {
            if j < s.len() - 1 {
                assert(s.drop_last()[j] == s[j]);
            }
        }
    }
}

/// A position holding `c` with no `c` behind it is the last index.
pub proof fn lemma_last_index_is(s: Seq<char>, c: char, i: int)
    requires
        -1 <= i < s.len(),
        i >= 0 ==> s[i] == c,
        forall|j: int| i < j < s.len() ==> s[j] != c,
    ensures
        last_index(s, c) == i,
{
    lemma_last_index(s, c);
    let k = last_index(s, c);
    if k > i {
        assert(s[k] != c);
    }
}

/// The last component of `path`: what follows its last slash.
pub open spec fn file_name_of(path: Seq<char>) -> Seq<char> {
    path.skip(last_index(path, '/') + 1)
}

/// Where the last component of `text` begins.
fn name_start(text: &Vec<char>) -> (i: usize)
    ensures
        i == last_index(text@, '/') + 1,
        i <= text.len(),
{
    let mut i: usize = text.len();
    while i > 0 && text[i - 1] != '/'
        invariant
            i <= text.len(),
            forall|j: int| i <= j < text.len() ==> text@[j] != '/',
        decreases i,
    {
        i = i - 1;
    }
    proof {
        lemma_last_index_is(text@, '/', i - 1);
    }
    i
}

/// The last component of `path`.
pub fn file_name(path: &str) -> (name: String)
    ensures
        name@ == file_name_of(path@),
{
    let text = chars_of(path);
    let start = name_start(&text);
    assert(text@.skip(start as int) == text@.subrange(start as int, text@.len() as int));
    string_between(&text, start, text.len())
}

/// Joins `root` and `rel` by one slash.
pub fn join(root: &str, rel: &str) -> (path: String)
    ensures
        path@ == joined(root@, rel@),
{
    let head = chars_of(root);
    let tail = chars_of(rel);
    let mut out: Vec<char> = Vec::new();
    push_all(&mut out, &head);
    if head.len() > 0 && head[head.len() - 1] != '/' {
        out.push('/');
    }
    push_all(&mut out, &tail);
    string_of(&out)
}

/// Takes the leading `root` away from `path`.
pub fn strip_root(path: &str, root: &str) -> (rest: Option<String>)
    ensures
        match rest {
            Some(name) => relative_to(path@, root@) == Some(name@),
            None => relative_to(path@, root@) is None,
        },
{
    let whole = chars_of(path);
    let mut head = chars_of(root);
    if head.len() == 0 {
        assert(whole@.subrange(0, whole@.len() as int) == whole@);
        return Some(string_between(&whole, 0, whole.len()));
    }
    if whole.len() == head.len() && matches_at(&whole, &head, 0) {
        assert(whole@.subrange(0, whole@.len() as int) == whole@);
        return Some(String::new());
    }
    assert(path@ != root@) by {
        if path@ == root@ {
            assert(whole@.subrange(0, head@.len() as int) == head@);
        }
    }
    if head[head.len() - 1] != '/' {
        head.push('/');
    }
    if matches_at(&whole, &head, 0) {
        assert(whole@.skip(head@.len() as int) == whole@.subrange(
            head@.len() as int,
            whole@.len() as int,
        ));
        Some(string_between(&whole, head.len(), whole.len()))
    } else {
        None
    }
}

/// What stands before the last slash of `path`, if it has one.
pub fn parent(path: &str) -> (dir: Option<String>)
    ensures
        match dir {
            Some(d) => parent_of(path@) == Some(d@),
            None => parent_of(path@) is None,
        },
{
    let text = chars_of(path);
    let mut i: usize = text.len();
    assert(text@.take(i as int) == text@);
    while i > 0 && text[i - 1] != '/'
        invariant
            i <= text.len(),
            text@ == path@,
            last_index(path@, '/') == last_index(path@.take(i as int), '/'),
        decreases i,
    {
        assert(path@.take(i as int).drop_last() == path@.take(i - 1));
        i = i - 1;
    }
    if i == 0 {
        None
    } else {
        assert(path@.take(i as int).last() == '/');
        assert(text@.subrange(0, i - 1) == path@.take(i - 1));
        Some(string_between(&text, 0, i - 1))
    }
}

} // verus!
