//! A character-level model of filesystem paths.
//!
//! A path is a plain string of characters in which `/` separates
//! components. The final component is the candidate base name of a file;
//! the extension is the part of that component after its last `.`, present
//! only when a non-empty stem precedes the dot. These definitions cover
//! the paths a directory scan hands over (a directory joined with a plain
//! file name); degenerate inputs (a trailing slash, a bare `.` or `..`
//! component) have no base name here.

use vstd::prelude::*;

verus! {

/// The characters of `s` strictly after the last occurrence of `c`;
/// all of `s` when `c` does not occur.
pub open spec fn after_last(s: Seq<char>, c: char) -> Seq<char>
    decreases s.len(),
{
    if s.len() == 0 {
        s
    } else if s.last() == c {
        Seq::empty()
    } else {
        after_last(s.drop_last(), c).push(s.last())
    }
}

/// The final component of a path: everything after the last `/`.
pub open spec fn last_component(p: Seq<char>) -> Seq<char> {
    after_last(p, '/')
}

/// Whether a final component can serve as a file's base name: it is
/// non-empty and is not one of the relative components `.` and `..`.
pub open spec fn is_plain_name(name: Seq<char>) -> bool {
    &&& name.len() > 0
    &&& name != seq!['.']
    &&& name != seq!['.', '.']
}

/// The base name of a path: its final component, when that component is
/// a plain file name.
pub open spec fn base_name_of(p: Seq<char>) -> Option<Seq<char>> {
    let name = last_component(p);
    if is_plain_name(name) {
        Some(name)
    } else {
        None
    }
}

/// The extension of a path: the part of its final component after the
/// last `.`, provided a non-empty stem precedes that dot.
pub open spec fn extension_of(p: Seq<char>) -> Option<Seq<char>> {
    let name = last_component(p);
    let ext = after_last(name, '.');
    if name.contains('.') && name.len() >= ext.len() + 2 {
        Some(ext)
    } else {
        None
    }
}

/// The path of `name` placed directly inside the directory `dir`: the two
/// joined with a `/`, which is not doubled when `dir` already ends in one
/// and is omitted when `dir` is empty.
pub open spec fn joined(dir: Seq<char>, name: Seq<char>) -> Seq<char> {
    if dir.len() == 0 {
        name
    } else if dir.last() == '/' {
        dir + name
    } else {
        dir + seq!['/'] + name
    }
}

/// When `c` does not occur in `s`, everything after its last occurrence
/// is all of `s`.
proof fn lemma_after_last_absent(s: Seq<char>, c: char)
    requires
        forall|j: int| 0 <= j < s.len() ==> s[j] != c,
    ensures
        after_last(s, c) == s,
    decreases s.len(),
{
    if s.len() > 0 {
        lemma_after_last_absent(s.drop_last(), c);
        assert(s.drop_last().push(s.last()) =~= s);
    }
}

/// When the last occurrence of `c` in `s` is at index `i`, everything
/// after it is the suffix that starts at `i + 1`.
proof fn lemma_after_last_at(s: Seq<char>, c: char, i: int)
    requires
        0 <= i < s.len(),
        s[i] == c,
        forall|j: int| i < j < s.len() ==> s[j] != c,
    ensures
        after_last(s, c) == s.subrange(i + 1, s.len() as int),
    decreases s.len(),
{
    if i == s.len() - 1 {
        assert(after_last(s, c) =~= s.subrange(i + 1, s.len() as int));
    } else {
        lemma_after_last_at(s.drop_last(), c, i);
        assert(s.drop_last().subrange(i + 1, s.len() - 1) =~= s.subrange(
            i + 1,
            s.len() as int,
        ).drop_last());
        assert(after_last(s, c) =~= s.subrange(i + 1, s.len() as int));
    }
}

/// The index of the last occurrence of `c` in `s`, if `c` occurs at all.
pub fn find_last(s: &str, c: char) -> (r: Option<usize>)
    ensures
        match r {
            Some(i) => {
                &&& i < s@.len()
                &&& s@[i as int] == c
                &&& forall|j: int| i < j < s@.len() ==> s@[j] != c
            },
            None => forall|j: int| 0 <= j < s@.len() ==> s@[j] != c,
        },
{
    let n: usize = s.unicode_len();
    let mut i: usize = n;
    while i > 0
        invariant
            i <= n,
            n == s@.len(),
            forall|j: int| i <= j < s@.len() ==> s@[j] != c,
        decreases i,
    {
        i = i - 1;
        if s.get_char(i) == c {
            return Some(i);
        }
    }
    None
}

/// The final component of `path` as a fresh string: everything after the
/// last `/`, or all of `path` when it holds no `/`.
fn final_component(path: &str) -> (r: String)
    ensures
        r@ == last_component(path@),
{
    let n: usize = path.unicode_len();
    let start: usize = match find_last(path, '/') {
        Some(i) => {
            proof {
                lemma_after_last_at(path@, '/', i as int);
            }
            i + 1
        },
        None => {
            proof {
                lemma_after_last_absent(path@, '/');
            }
            0
        },
    };
    let name = path.substring_char(start, n);
    proof {
        assert(path@.subrange(0, n as int) =~= path@);
    }
    name.to_owned()
}

/// The base name of `path`, when it has one: the final component, unless
/// that component is empty, `.`, or `..`.
pub fn base_name(path: &str) -> (r: Option<String>)
    ensures
        match r {
            Some(name) => base_name_of(path@) == Some(name@),
            None => base_name_of(path@) is None,
        },
{
    let name = final_component(path);
    let len: usize = name.as_str().unicode_len();
    if len == 0 {
        return None;
    }
    if len == 1 && name.as_str().get_char(0) == '.' {
        proof {
            assert(name@ =~= seq!['.']);
        }
        return None;
    }
    if len == 2 && name.as_str().get_char(0) == '.' && name.as_str().get_char(1) == '.' {
        proof {
            assert(name@ =~= seq!['.', '.']);
        }
        return None;
    }
    proof {
        assert(name@ != seq!['.'] && name@ != seq!['.', '.']) by {
            if name@ == seq!['.'] {
                assert(name@.len() == 1 && name@[0] == '.');
            }
            if name@ == seq!['.', '.'] {
                assert(name@.len() == 2 && name@[0] == '.' && name@[1] == '.');
            }
        }
    }
    Some(name)
}

/// The extension of `path`, when it has one: the part of the final
/// component after its last `.`, the dot preceded by a non-empty stem.
pub fn extension(path: &str) -> (r: Option<String>)
    ensures
        match r {
            Some(ext) => extension_of(path@) == Some(ext@),
            None => extension_of(path@) is None,
        },
{
    let name = final_component(path);
    let len: usize = name.as_str().unicode_len();
    match find_last(name.as_str(), '.') {
        None => {
            proof {
                assert(!last_component(path@).contains('.'));
            }
            None
        },
        Some(j) => {
            proof {
                assert(name@[j as int] == '.');
                assert(name@.contains('.'));
                lemma_after_last_at(name@, '.', j as int);
            }
            if j >= 1 {
                let ext = name.as_str().substring_char(j + 1, len);
                Some(ext.to_owned())
            } else {
                None
            }
        },
    }
}

/// `name` placed under the directory `dir`, with a single `/` between the
/// two unless `dir` is empty or already ends in `/`.
pub fn join_path(dir: &str, name: &str) -> (r: String)
    ensures
        r@ == joined(dir@, name@),
{
    let n: usize = dir.unicode_len();
    if n == 0 {
        return name.to_owned();
    }
    let mut out = dir.to_owned();
    if dir.get_char(n - 1) != '/' {
        proof {
            reveal_strlit("/");
        }
        out.append("/");
        proof {
            assert(out@ =~= dir@ + seq!['/']);
        }
    }
    out.append(name);
    out
}

} // verus!
