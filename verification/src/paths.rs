//! Path arithmetic on directory strings.
//!
//! A directory path is kept in the normal form the navigator maintains:
//! never empty, no run of two separators, and no trailing separator
//! except on a one-character root.  Moving up strips the last component;
//! entering appends one.

use vstd::prelude::*;
use vstd::string::{StrSliceExecFns, StringExecFns};

verus! {

/// A well-formed entry name: non-empty and free of the path separator.
pub open spec fn wf_name(n: Seq<char>) -> bool {
    &&& n.len() > 0
    &&& forall|i: int| 0 <= i < n.len() ==> #[trigger] n[i] != '/'
}

/// A well-formed directory path: non-empty, no double separator, and no
/// trailing separator unless the path is a single character (the root).
pub open spec fn wf_dir(p: Seq<char>) -> bool {
    &&& p.len() >= 1
    &&& (p.len() == 1 || p[p.len() - 1] != '/')
    &&& forall|i: int| 1 <= i < p.len() ==> !(p[i - 1] == '/' && #[trigger] p[i] == '/')
}

/// Index of the last separator strictly before position `i`, or -1 when
/// there is none.
pub open spec fn last_slash_before(p: Seq<char>, i: int) -> int
    decreases i,
{
    if i <= 0 {
        -1
    } else if p[i - 1] == '/' {
        i - 1
    } else {
        last_slash_before(p, i - 1)
    }
}

/// The parent directory: everything before the last separator.  A path
/// without a separator, and the root itself, are their own parent.
pub open spec fn parent_of(p: Seq<char>) -> Seq<char> {
    let s = last_slash_before(p, p.len() as int);
    if s < 0 {
        p
    } else if s == 0 {
        seq!['/']
    } else {
        p.subrange(0, s)
    }
}

/// The child path: the directory, one separator, then the entry name.
/// A root that already ends in the separator gets none added.
pub open spec fn join_of(dir: Seq<char>, name: Seq<char>) -> Seq<char> {
    if dir == seq!['/'] {
        dir + name
    } else {
        dir + seq!['/'] + name
    }
}

proof fn lemma_last_slash_found(p: Seq<char>, i: int)
    requires
        0 <= i <= p.len(),
    ensures
        last_slash_before(p, i) < i,
        last_slash_before(p, i) >= 0 ==> p[last_slash_before(p, i)] == '/',
        forall|k: int| last_slash_before(p, i) < k < i ==> #[trigger] p[k] != '/',
    decreases i,
{
    if i > 0 && p[i - 1] != '/' {
        lemma_last_slash_found(p, i - 1);
    }
}

/// The parent of a path is itself exactly when the path has no
/// separator past its first character; in particular the root is its
/// own parent, so moving up from it changes nothing.
pub proof fn lemma_parent_of_root(p: Seq<char>)
    requires
        p =~= seq!['/'],
    ensures
        parent_of(p) == p,
{
    assert(last_slash_before(p, 1) == 0);
    assert(parent_of(p) =~= p);
}

pub fn get_parent_dir(path: &str) -> (parent: String)
    requires
        wf_dir(path@),
    ensures
        parent@ == parent_of(path@),
        wf_dir(parent@),
{
    let ghost p = path@;
    let n = path.unicode_len();
    let mut i: usize = n;
    while i > 0 && path.get_char(i - 1) != '/'
        invariant
            i <= n,
            n == p.len(),
            p == path@,
            last_slash_before(p, i as int) == last_slash_before(p, n as int),
        decreases i,
    {
        i = i - 1;
    }
    proof {
        lemma_last_slash_found(p, n as int);
    }
    if i == 0 {
        // No separator at all: the path is its own parent.
        assert(last_slash_before(p, n as int) == -1);
        String::from_str(path)
    } else if i == 1 {
        // The only separator is the leading one: the parent is the root.
        assert(last_slash_before(p, n as int) == 0);
        let parent = String::from_str(path.substring_char(0, 1));
        proof {
            assert(p[0] == '/');
            assert(parent@ =~= seq!['/']);
            assert(parent_of(p) =~= seq!['/']);
        }
        parent
    } else {
        let ghost s = last_slash_before(p, n as int);
        assert(s == i - 1);
        let parent = String::from_str(path.substring_char(0, i - 1));
        proof {
            assert(parent@ =~= p.subrange(0, s));
            // The character before the separator is not itself a
            // separator, so the parent has no trailing separator.
            assert(p[s] == '/');
            assert(parent@[parent@.len() - 1] == p[s - 1]);
            assert(wf_dir(parent@));
        }
        parent
    }
}

pub fn join_path(dir: &str, name: &str) -> (joined: String)
    requires
        wf_dir(dir@),
        wf_name(name@),
    ensures
        joined@ == join_of(dir@, name@),
        wf_dir(joined@),
{
    proof {
        reveal_strlit("/");
    }
    let n = dir.unicode_len();
    if n == 1 && dir.get_char(0) == '/' {
        assert(dir@ =~= seq!['/']);
        let mut joined = String::from_str(dir);
        joined.append(name);
        proof {
            assert(joined@ == join_of(dir@, name@));
            lemma_join_wf(dir@, name@);
        }
        joined
    } else {
        assert(dir@ != seq!['/']) by {
            if dir@ =~= seq!['/'] {
                assert(dir@.len() == 1 && dir@[0] == '/');
            }
        }
        let mut joined = String::from_str(dir);
        joined.append("/");
        joined.append(name);
        proof {
            assert("/"@ =~= seq!['/']);
            assert(joined@ =~= dir@ + seq!['/'] + name@);
            lemma_join_wf(dir@, name@);
        }
        joined
    }
}

proof fn lemma_join_wf(dir: Seq<char>, name: Seq<char>)
    requires
        wf_dir(dir),
        wf_name(name),
    ensures
        wf_dir(join_of(dir, name)),
{
    let j = join_of(dir, name);
    if dir == seq!['/'] {
        assert(j =~= dir + name);
        assert(j.len() == 1 + name.len());
        assert(j[j.len() - 1] == name[name.len() - 1]);
        assert forall|i: int| 1 <= i < j.len() implies !(j[i - 1] == '/' && #[trigger] j[i]
            == '/') by {
            if i >= 1 {
                assert(j[i] == name[i - 1]);
            }
        }
    } else {
        assert(j =~= dir + seq!['/'] + name);
        // A non-root well-formed path never ends in the separator.
        assert(dir[dir.len() - 1] != '/') by {
            if dir.len() == 1 {
                if dir[0] == '/' {
                    assert(dir =~= seq!['/']);
                }
            }
        }
        assert(j[j.len() - 1] == name[name.len() - 1]);
        assert forall|i: int| 1 <= i < j.len() implies !(j[i - 1] == '/' && #[trigger] j[i]
            == '/') by {
            let d = dir.len() as int;
            if i < d {
                assert(j[i - 1] == dir[i - 1] && j[i] == dir[i]);
            } else if i == d {
                assert(j[i - 1] == dir[d - 1]);
            } else if i == d + 1 {
                assert(j[i] == name[0]);
            } else {
                assert(j[i] == name[i - d - 1]);
            }
        }
    }
}

/// Moving up after stepping into a child returns to the same directory:
/// the parent of a joined path is the directory it was joined from.
pub proof fn lemma_parent_of_join(dir: Seq<char>, name: Seq<char>)
    requires
        wf_dir(dir),
        wf_name(name),
    ensures
        parent_of(join_of(dir, name)) == dir,
{
    let j = join_of(dir, name);
    lemma_join_wf(dir, name);
    if dir == seq!['/'] {
        assert(j =~= dir + name);
        assert(j[0] == '/');
        assert(forall|k: int| 1 <= k < j.len() ==> #[trigger] j[k] == name[k - 1]);
        lemma_last_slash_found(j, j.len() as int);
        let s = last_slash_before(j, j.len() as int);
        assert(s >= 0 ==> j[s] == '/');
        assert(j[0] == '/' && forall|k: int| 0 < k < j.len() ==> #[trigger] j[k] != '/');
        assert(s == 0) by {
            if s < 0 {
                assert(forall|k: int| s < k < j.len() ==> #[trigger] j[k] != '/');
                assert(j[0] != '/');
            }
        }
        assert(parent_of(j) =~= dir);
    } else {
        assert(j =~= dir + seq!['/'] + name);
        let d = dir.len() as int;
        lemma_last_slash_found(j, j.len() as int);
        let s = last_slash_before(j, j.len() as int);
        assert(j[d] == '/');
        assert(forall|k: int| d < k < j.len() ==> #[trigger] j[k] == name[k - d - 1]);
        assert(forall|k: int| d < k < j.len() ==> #[trigger] j[k] != '/');
        assert(s == d) by {
            if s < d {
                assert(j[d] != '/');
            }
        }
        assert(d > 0);
        assert(parent_of(j) =~= j.subrange(0, d));
        assert(j.subrange(0, d) =~= dir);
    }
}

} // verus!
