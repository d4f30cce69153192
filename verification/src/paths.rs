//! Relative paths as `/`-separated texts: their components, the component a
//! file belongs to, protected directories and joining.
use vstd::prelude::*;
use crate::text::{
    chars_of, concat, is_prefix, is_suffix, join, join_strings, split, split_char, str_eq,
    string_of, views,
};

verus! {

/// The parts that name a path component: neither empty nor `.`.
pub open spec fn kept_parts(parts: Seq<Seq<char>>) -> Seq<Seq<char>>
    decreases parts.len(),
{
    if parts.len() == 0 {
        Seq::empty()
    } else {
        let rest = kept_parts(parts.drop_last());
        let p = parts.last();
        if p.len() > 0 && p != "."@ {
            rest.push(p)
        } else {
            rest
        }
    }
}

/// The components of a relative path.
pub open spec fn path_components(p: Seq<char>) -> Seq<Seq<char>> {
    kept_parts(split_char(p, '/'))
}

/// The components of a relative path.
pub fn components(path: &str) -> (r: Vec<String>)
    ensures
        views(r@) == path_components(path@),
{
    proof {
        reveal_strlit(".");
    }
    let chars = chars_of(path);
    let parts = split(chars.as_slice(), '/');
    let ghost ps = parts@.map_values(|p: Vec<char>| p@);
    let mut r: Vec<String> = Vec::new();
    let mut i: usize = 0;
    while i < parts.len()
        invariant
            i <= parts@.len(),
            ps == parts@.map_values(|p: Vec<char>| p@),
            ps == split_char(path@, '/'),
            views(r@) == kept_parts(ps.take(i as int)),
        decreases parts@.len() - i,
    {
        assert(ps.take(i + 1).drop_last() =~= ps.take(i as int));
        assert(ps[i as int] == parts@[i as int]@);
        let p = &parts[i];
        let is_dot = p.len() == 1 && p[0] == '.';
        assert(is_dot <==> p@ == "."@) by {
            reveal_strlit(".");
            if p@ == "."@ {
                assert(p@.len() == 1 && p@[0] == '.');
            }
            if is_dot {
                assert(p@ =~= "."@);
            }
        }
        if p.len() > 0 && !is_dot {
            let s = string_of(p.as_slice());
            r.push(s);
            assert(views(r@) =~= kept_parts(ps.take(i + 1)));
        } else {
            assert(views(r@) =~= kept_parts(ps.take(i + 1)));
        }
        i += 1;
    }
    assert(ps.take(parts@.len() as int) =~= ps);
    r
}

/// The component a file belongs to: its first two path components.
pub open spec fn component_of(p: Seq<char>) -> Seq<char> {
    let c = path_components(p);
    join(
        if c.len() < 2 {
            c
        } else {
            c.take(2)
        },
        "/"@,
    )
}

/// Get the component of a relative path (its first two components).
pub fn get_component(path: &str) -> (r: String)
    ensures
        r@ == component_of(path@),
{
    let mut parts = components(path);
    if parts.len() >= 2 {
        parts.truncate(2);
        assert(views(parts@) =~= path_components(path@).take(2));
    }
    join_strings(&parts, "/")
}

/// Some component of `p` is one of `dirs`.
pub open spec fn protected_path(p: Seq<char>, dirs: Seq<Seq<char>>) -> bool {
    exists|i: int| 0 <= i < path_components(p).len() && dirs.contains(#[trigger] path_components(p)[i])
}

/// Whether any component of `path` is a protected directory.
pub fn is_protected(path: &str, protected_dirs: &Vec<String>) -> (r: bool)
    ensures
        r == protected_path(path@, views(protected_dirs@)),
{
    let parts = components(path);
    let ghost pc = path_components(path@);
    let mut i: usize = 0;
    while i < parts.len()
        invariant
            i <= parts@.len(),
            views(parts@) == pc,
            pc == path_components(path@),
            forall|j: int| 0 <= j < i ==> !views(protected_dirs@).contains(#[trigger] pc[j]),
        decreases parts@.len() - i,
    {
        assert(pc[i as int] == parts@[i as int]@);
        if crate::text::contains_string(protected_dirs, parts[i].as_str()) {
            return true;
        }
        i += 1;
    }
    false
}

/// `b` appended to `a` as `PathBuf::push` does: an absolute `b` replaces
/// `a`, and a `/` is put between them when `a` is not empty and does not end
/// with one.
pub open spec fn joined_path(a: Seq<char>, b: Seq<char>) -> Seq<char> {
    if is_prefix("/"@, b) {
        b
    } else if a.len() == 0 || is_suffix("/"@, a) {
        a + b
    } else {
        a + "/"@ + b
    }
}

/// Join two paths.
pub fn join_path(a: &str, b: &str) -> (r: String)
    ensures
        r@ == joined_path(a@, b@),
{
    proof {
        reveal_strlit("/");
    }
    let bc = chars_of(b);
    let ac = chars_of(a);
    if bc.len() > 0 && bc[0] == '/' {
        assert(b@.subrange(0, 1) =~= "/"@);
        return String::from_str(b);
    }
    assert(!is_prefix("/"@, b@)) by {
        if is_prefix("/"@, b@) {
            assert(b@.subrange(0, 1)[0] == '/');
        }
    }
    if ac.len() == 0 || ac[ac.len() - 1] == '/' {
        if ac.len() > 0 {
            assert(a@.subrange(a@.len() - 1, a@.len() as int) =~= "/"@);
        }
        concat(a, b)
    } else {
        assert(!is_suffix("/"@, a@)) by {
            if is_suffix("/"@, a@) {
                assert(a@.subrange(a@.len() - 1, a@.len() as int)[0] == '/');
            }
        }
        let with_sep = concat(a, "/");
        concat(with_sep.as_str(), b)
    }
}

/// The last component of a path, unless it is `..` or there is none.
pub open spec fn file_name_of(p: Seq<char>) -> Option<Seq<char>> {
    let c = path_components(p);
    if c.len() == 0 || c.last() == ".."@ {
        None
    } else {
        Some(c.last())
    }
}

/// The last component of a path, unless it is `..` or there is none.
pub fn file_name(path: &str) -> (r: Option<String>)
    ensures
        match r {
            Some(n) => file_name_of(path@) == Some(n@),
            None => file_name_of(path@) is None,
        },
{
    let mut parts = components(path);
    if parts.len() == 0 {
        return None;
    }
    let last = parts.pop().unwrap();
    assert(last@ == path_components(path@).last());
    if str_eq(last.as_str(), "..") {
        None
    } else {
        Some(last)
    }
}

} // verus!
