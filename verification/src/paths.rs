//! Path arithmetic on textual (UTF-8) paths with Unix separators.

use vstd::prelude::*;

verus! {

/// The path separator.
pub open spec fn is_separator(c: char) -> bool {
    c == '/'
}

/// A path is absolute when it starts with the separator.
pub open spec fn is_absolute(p: Seq<char>) -> bool {
    p.len() > 0 && is_separator(p[0])
}

/// `base` adjoined with `component`, as `Path::join` does it on Unix: an
/// absolute component replaces the base; otherwise a separator is put
/// between the two unless the base is empty or already ends with one.
pub open spec fn join_spec(base: Seq<char>, component: Seq<char>) -> Seq<char> {
    if is_absolute(component) {
        component
    } else if base.len() == 0 || is_separator(base.last()) {
        base + component
    } else {
        base + seq!['/'] + component
    }
}

/// Adjoins `component` to `base` (see [`join_spec`]).
pub fn join_path(base: &str, component: &str) -> (joined: String)
    ensures
        joined@ == join_spec(base@, component@),
{
    let clen = component.unicode_len();
    if clen > 0 && component.get_char(0) == '/' {
        return component.to_owned();
    }
    let blen = base.unicode_len();
    let owned = base.to_owned();
    if blen == 0 || base.get_char(blen - 1) == '/' {
        owned.concat(component)
    } else {
        proof {
            reveal_strlit("/");
        }
        let with_sep = owned.concat("/");
        with_sep.concat(component)
    }
}

/// Adjoining a relative, non-empty component gives a path strictly below
/// the base: the base is a proper prefix of the result.
pub proof fn law_join_extends_base(base: Seq<char>, component: Seq<char>)
    requires
        !is_absolute(component),
        component.len() > 0,
    ensures
        base.is_prefix_of(join_spec(base, component)),
        join_spec(base, component).len() > base.len(),
{
    let joined = join_spec(base, component);
    assert(base =~= joined.subrange(0, base.len() as int));
}

} // verus!
