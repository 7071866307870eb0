//! Filesystem paths as strings, joined the way `PathBuf::push` joins them on Unix.
use crate::text::{chars_vec, string_of};
use vstd::prelude::*;

verus! {

/// `base` joined with `part`: an absolute `part` replaces `base`; otherwise a `/`
/// separates them unless `base` is empty or already ends with one.
pub open spec fn path_join(base: Seq<char>, part: Seq<char>) -> Seq<char> {
    if part.len() > 0 && part[0] == '/' {
        part
    } else if base.len() == 0 {
        part
    } else if base.last() == '/' {
        base + part
    } else {
        base + seq!['/'] + part
    }
}

/// Joins two paths (`Path::join`).
pub fn join_path(base: &str, part: &str) -> (r: String)
    ensures
        r@ == path_join(base@, part@),
{
    let b = chars_vec(base);
    let p = chars_vec(part);
    if p.len() > 0 && p[0] == '/' {
        return string_of(&p);
    }
    if b.len() == 0 {
        return string_of(&p);
    }
    let mut out = b.clone();
    if b[b.len() - 1] != '/' {
        out.push('/');
    }
    let mut i: usize = 0;
    let ghost start = out@;
    while i < p.len()
        invariant
            i <= p@.len(),
            out@ == start + p@.subrange(0, i as int),
        decreases p.len() - i,
    {
        out.push(p[i]);
        i = i + 1;
        assert(out@ =~= start + p@.subrange(0, i as int));
    }
    assert(p@.subrange(0, p@.len() as int) =~= p@);
    assert(b@ == base@);
    proof {
        if b@.last() == '/' {
            assert(out@ =~= base@ + part@);
        } else {
            assert(out@ =~= base@ + seq!['/'] + part@);
        }
    }
    string_of(&out)
}

} // verus!
