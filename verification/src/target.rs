//! Naming a note or a directory on disk: a target is the user's name for an
//! entry under the storage root, and building a path from it may add the
//! note file extension. Whether the path already exists on disk is decided
//! outside the library and handed in as a plain flag.
use vstd::prelude::*;
use crate::render::append_str;

verus! {

/// A user-given name for a note or directory below the storage root.
#[derive(Debug)]
pub struct Target(pub String);

/// No path separator stands after position `j`.
pub open spec fn no_sep_after(s: Seq<char>, j: int) -> bool {
    forall|m: int| j < m < s.len() ==> #[trigger] s[m] != '/'
}

/// Whether the last path component carries an extension: a dot that is not
/// the component's first character, with no separator after it.
pub open spec fn has_extension(s: Seq<char>) -> bool {
    exists|j: int| 1 <= j < s.len() && #[trigger] s[j] == '.' && s[j - 1] != '/' && no_sep_after(s, j)
}

/// The path joined from a root and a name, with one separator between them.
pub open spec fn joined(root: Seq<char>, name: Seq<char>) -> Seq<char> {
    root + seq!['/'] + name
}

/// Relies on `str::chars` of std: the characters of the string, in order.
#[verifier::external_body]
fn str_chars(s: &str) -> (r: Vec<char>)
    ensures
        r@ == s@,
{
    s.chars().collect()
}

/// Appends the note file extension when the path has none yet.
pub fn with_md_extension(path: &str) -> (r: String)
    ensures
        r@ == ({
            if has_extension(path@) {
                path@
            } else {
                path@ + seq!['.', 'm', 'd']
            }
        }),
{
    let cs = str_chars(path);
    let n = cs.len();
    let mut found = false;
    let mut i: usize = 0;
    while i < n
        invariant
            i <= n,
            n == cs@.len(),
            cs@ == path@,
            found == has_extension(path@.subrange(0, i as int)),
        decreases n - i,
    {
        let ghost pre = path@.subrange(0, i as int);
        let ghost pre1 = path@.subrange(0, i as int + 1);
        proof {
            assert(pre1.len() == i + 1);
            assert(forall|m: int| 0 <= m < pre1.len() ==> pre1[m] == path@[m]);
            assert(forall|m: int| 0 <= m < pre.len() ==> pre[m] == path@[m]);
        }
        let c = cs[i];
        if c == '/' {
            found = false;
            proof {
                assert(!has_extension(pre1)) by {
                    assert(pre1[i as int] == '/');
                    assert forall|j: int|
                        1 <= j < pre1.len() && pre1[j] == '.' && pre1[j - 1] != '/' implies !no_sep_after(pre1, j) by {
                        assert(pre1[i as int] == '/');
                    }
                }
            }
        } else if c == '.' && i >= 1 && cs[i - 1] != '/' {
            found = true;
            proof {
                assert(has_extension(pre1)) by {
                    assert(pre1[i as int] == '.');
                    assert(pre1[i as int - 1] != '/');
                    assert(no_sep_after(pre1, i as int));
                }
            }
        } else {
            proof {
                if has_extension(pre) {
                    let j = choose|j: int|
                        1 <= j < pre.len() && #[trigger] pre[j] == '.' && pre[j - 1] != '/'
                            && no_sep_after(pre, j);
                    assert(pre1[j] == '.');
                    assert(pre1[j - 1] != '/');
                    assert(no_sep_after(pre1, j)) by {
                        assert(pre1[i as int] != '/');
                        assert(forall|m: int| j < m < pre.len() ==> #[trigger] pre1[m] != '/');
                    }
                    assert(has_extension(pre1));
                }
                if has_extension(pre1) {
                    let j = choose|j: int|
                        1 <= j < pre1.len() && #[trigger] pre1[j] == '.' && pre1[j - 1] != '/'
                            && no_sep_after(pre1, j);
                    assert(j != i as int) by {
                        assert(pre1[i as int] == cs@[i as int]);
                    }
                    assert(pre[j] == '.');
                    assert(pre[j - 1] != '/');
                    assert(no_sep_after(pre, j));
                    assert(has_extension(pre));
                }
            }
        }
        i += 1;
    }
    proof {
        assert(path@.subrange(0, n as int) =~= path@);
    }
    let mut out = String::new();
    append_str(&mut out, path);
    if !found {
        append_str(&mut out, ".md");
        proof {
            reveal_strlit(".md");
            assert(".md"@ =~= seq!['.', 'm', 'd']);
        }
    }
    out
}

impl Target {
    /// Wraps a name as given by the user.
    pub fn new(name: String) -> (t: Target)
        ensures
            t.0@ == name@,
    {
        Target(name)
    }

    /// The path of the target below `root`: the two joined by a separator,
    /// given the note file extension when the joined path does not already
    /// exist on disk (`exists` reports that) and has no extension of its own.
    pub fn build_path(&self, root: &str, exists: bool) -> (r: String)
        ensures
            r@ == ({
                if exists {
                    joined(root@, self.0@)
                } else if has_extension(joined(root@, self.0@)) {
                    joined(root@, self.0@)
                } else {
                    joined(root@, self.0@) + seq!['.', 'm', 'd']
                }
            }),
    {
        let mut full = String::new();
        append_str(&mut full, root);
        append_str(&mut full, "/");
        append_str(&mut full, self.0.as_str());
        proof {
            reveal_strlit("/");
            assert("/"@ =~= seq!['/']);
            assert(full@ =~= joined(root@, self.0@));
        }
        if exists {
            full
        } else {
            with_md_extension(full.as_str())
        }
    }
}

} // verus!
