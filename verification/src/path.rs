//! Paths as text.
use crate::text::{ends_with, starts_with, strip_prefix, strip_suffix};
use vstd::prelude::*;

verus! {

/// The path of `name` within the directory `base`. An absolute name stays as it is.
pub open spec fn path_join(base: Seq<char>, name: Seq<char>) -> Seq<char> {
    if base.len() == 0 || starts_with(name, "/"@) {
        name
    } else if ends_with(base, "/"@) {
        base + name
    } else {
        base + "/"@ + name
    }
}

/// The path of `name` within the directory `base`. An absolute name stays as it is.
pub fn join_path(base: &str, name: &str) -> (r: String)
    ensures
        r@ == path_join(base@, name@),
{
    if base.is_empty() || strip_prefix(name, "/").is_some() {
        return name.to_owned();
    }
    let mut r = base.to_owned();
    if strip_suffix(base, "/").is_none() {
        r.append("/");
    }
    r.append(name);
    r
}

/// A path within a directory is the directory's path, one slash, and the name. An absolute
/// name, or one within no directory, is a path by itself.
pub proof fn law_path_is_directory_slash_name(dir: Seq<char>, name: Seq<char>)
    requires
        dir.len() > 0,
        dir.last() != '/',
    ensures
        name.len() == 0 || name[0] != '/' ==> path_join(dir, name) == dir + seq!['/'] + name
            && path_join(dir + seq!['/'], name) == dir + seq!['/'] + name,
        path_join(dir, seq!['/'] + name) == seq!['/'] + name,
        path_join(Seq::empty(), name) == name,
{
    reveal_strlit("/");
    let slash = seq!['/'];
    assert("/"@ == slash);
    if starts_with(name, slash) {
        assert(name.take(1)[0] == name[0]);
    }
    if ends_with(dir, slash) {
        assert(dir.skip(dir.len() - 1)[0] == dir.last());
    }
    assert((dir + slash).skip(dir.len() as int) == slash);
    assert((slash + name).take(1) == slash);
}

} // verus!
