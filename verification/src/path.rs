//! Paths as text: a path is the string that names it, and two paths are the
//! same path when they are the same string.

use vstd::prelude::*;
use vstd::string::StrSliceExecFns;
use vstd::string::StringExecFns;
use crate::text::chars_of;

verus! {

/// The path of the entry `name` of the directory `base`: `name` itself where
/// it starts at the root, else `base` and `name` with one `/` between them
/// unless `base` is empty or brings the `/` itself.
pub open spec fn joined(base: Seq<char>, name: Seq<char>) -> Seq<char> {
    if name.len() > 0 && name[0] == '/' {
        name
    } else if base.len() == 0 || base.last() == '/' {
        base + name
    } else {
        base + seq!['/'] + name
    }
}

/// The path of the entry `name` of the directory `base`.
pub fn join(base: &str, name: &str) -> (r: String)
    ensures
        r@ == joined(base@, name@),
{
    let name_len = name.unicode_len();
    if name_len > 0 && name.get_char(0) == '/' {
        return String::from_str(name);
    }
    let base_len = base.unicode_len();
    let mut r = String::from_str(base);
    if base_len > 0 && base.get_char(base_len - 1) != '/' {
        r.push('/');
        assert(base@.push('/') == base@ + seq!['/']);
    }
    r.append(name);
    r
}

/// Whether `path` is `dir` or lies below it.
pub open spec fn is_under(path: Seq<char>, dir: Seq<char>) -> bool {
    ||| path == dir
    ||| {
        &&& 0 < dir.len() < path.len()
        &&& path.take(dir.len() as int) == dir
        &&& (dir.last() == '/' || path[dir.len() as int] == '/')
    }
}

/// Whether `path` is `dir` or lies below it.
pub fn under(path: &str, dir: &str) -> (r: bool)
    ensures
        r == is_under(path@, dir@),
{
    let p = chars_of(path);
    let d = chars_of(dir);
    if d.len() == 0 {
        assert(p.len() == 0 ==> path@ =~= dir@);
        return p.len() == 0;
    }
    if d.len() > p.len() {
        return false;
    }
    let mut i: usize = 0;
    while i < d.len()
        invariant
            i <= d.len() <= p.len(),
            p@ == path@,
            d@ == dir@,
            p@.take(i as int) == d@.take(i as int),
        decreases d.len() - i,
    {
        if p[i] != d[i] {
            assert(p@.take(d.len() as int)[i as int] != d@[i as int]);
            return false;
        }
        assert(p@.take(i + 1) == p@.take(i as int).push(p@[i as int]));
        assert(d@.take(i + 1) == d@.take(i as int).push(d@[i as int]));
        i += 1;
    }
    assert(d@.take(d.len() as int) == d@);
    if p.len() == d.len() {
        assert(p@.take(p.len() as int) == p@);
        return true;
    }
    d[d.len() - 1] == '/' || p[d.len()] == '/'
}

/// The last component of `path`, as `std::path::Path::file_name` finds it.
pub uninterp spec fn file_name_of(path: Seq<char>) -> Option<Seq<char>>;

/// `path` without its last component, as `std::path::Path::parent` finds it.
pub uninterp spec fn parent_of(path: Seq<char>) -> Option<Seq<char>>;

/// `Path::file_name`. Not proved: that the component it finds depends on the
/// text of the path alone.
#[verifier::external_body]
pub(crate) fn file_name(path: &str) -> (r: Option<String>)
    ensures
        r is Some <==> file_name_of(path@) is Some,
        r matches Some(n) ==> file_name_of(path@) == Some(n@),
{
    std::path::Path::new(path).file_name().map(|n| n.to_string_lossy().into_owned())
}

/// `Path::parent`. Not proved: that the path it finds depends on the text of
/// the path alone.
#[verifier::external_body]
pub(crate) fn parent(path: &str) -> (r: Option<String>)
    ensures
        r is Some <==> parent_of(path@) is Some,
        r matches Some(p) ==> parent_of(path@) == Some(p@),
{
    std::path::Path::new(path).parent().map(|p| p.to_string_lossy().into_owned())
}

} // verus!
