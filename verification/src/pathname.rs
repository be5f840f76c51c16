//! Deriving a project's default name from its filesystem path: the last
//! non-empty path segment, with both separator styles recognized. A path
//! from which no segment can be extracted falls back to a fixed name.

use vstd::prelude::*;
use vstd::string::StrSliceExecFns;
use vstd::string::StringExecFns;

verus! {

/// Whether a character separates path segments.
pub open spec fn is_sep(c: char) -> bool {
    c == '/' || c == '\\'
}

/// The maximal run of non-separator characters at the end of `s`.
pub open spec fn tail_run(s: Seq<char>) -> Seq<char>
    decreases s.len(),
{
    if s.len() == 0 {
        Seq::empty()
    } else if is_sep(s.last()) {
        Seq::empty()
    } else {
        tail_run(s.drop_last()).push(s.last())
    }
}

/// The last non-empty segment of `s`, or empty if `s` holds none.
pub open spec fn last_segment(s: Seq<char>) -> Seq<char>
    decreases s.len(),
{
    if s.len() == 0 {
        Seq::empty()
    } else if is_sep(s.last()) {
        last_segment(s.drop_last())
    } else {
        tail_run(s)
    }
}

/// The name a project takes from its path: the last non-empty segment,
/// or a fixed default when the path holds none.
pub open spec fn name_of_path(p: Seq<char>) -> Seq<char> {
    if last_segment(p).len() > 0 {
        last_segment(p)
    } else {
        "Project"@
    }
}

/// Whether this character separates path segments.
fn is_sep_char(c: char) -> (r: bool)
    ensures
        r == is_sep(c),
{
    c == '/' || c == '\\'
}

/// A maximal trailing run bounded by a separator (or the start) is the
/// subrange from its start to the end.
proof fn lemma_tail_run(s: Seq<char>, j: int)
    requires
        0 <= j < s.len(),
        forall|k: int| j <= k < s.len() ==> !is_sep(#[trigger] s[k]),
        j == 0 || is_sep(s[j - 1]),
    ensures
        tail_run(s) == s.subrange(j, s.len() as int),
    decreases s.len() - j,
{
    assert(!is_sep(s.last())) by {
        assert(s.last() == s[s.len() - 1]);
    }
    if j == s.len() - 1 {
        if j == 0 {
            assert(tail_run(s.drop_last()) == Seq::<char>::empty());
        } else {
            assert(s.drop_last().last() == s[j - 1]);
            assert(tail_run(s.drop_last()) == Seq::<char>::empty());
        }
        assert(tail_run(s) =~= s.subrange(j, s.len() as int));
    } else {
        assert(forall|k: int|
            j <= k < s.drop_last().len() ==> !is_sep(#[trigger] s.drop_last()[k])) by {
            assert(forall|k: int|
                j <= k < s.drop_last().len() ==> s.drop_last()[k] == #[trigger] s[k]);
        }
        if j > 0 {
            assert(s.drop_last()[j - 1] == s[j - 1]);
        }
        lemma_tail_run(s.drop_last(), j);
        assert(tail_run(s) =~= s.subrange(j, s.len() as int)) by {
            assert(s.drop_last().subrange(j, s.drop_last().len() as int) =~= s.subrange(
                j,
                s.len() - 1,
            ));
        }
    }
}

/// The last non-empty segment of the path, normalized over both
/// separator styles; a fixed default when the path has no non-empty
/// segment.
pub fn project_name_from_path(path: &str) -> (r: String)
    ensures
        r@ == name_of_path(path@),
{
    let n = path.unicode_len();
    proof {
        assert(path@.take(n as int) =~= path@);
    }
    let mut e: usize = n;
    while e > 0 && is_sep_char(path.get_char(e - 1))
        invariant
            e <= n,
            n == path@.len(),
            last_segment(path@) == last_segment(path@.take(e as int)),
        decreases e,
    {
        proof {
            assert(path@.take(n as int) =~= path@);
            assert(path@.take(e as int).drop_last() =~= path@.take(e as int - 1));
            assert(path@.take(e as int).last() == path@[e as int - 1]);
        }
        e -= 1;
    }
    proof {
        assert(path@.take(n as int) =~= path@);
    }
    if e == 0 {
        proof {
            assert(path@.take(0) =~= Seq::<char>::empty());
            assert(last_segment(path@).len() == 0);
        }
        String::from_str("Project")
    } else {
        let ghost prefix = path@.take(e as int);
        proof {
            assert(prefix.last() == path@[e as int - 1]);
            assert(!is_sep(prefix.last()));
            assert(last_segment(prefix) == tail_run(prefix));
        }
        let mut j: usize = e;
        while j > 0 && !is_sep_char(path.get_char(j - 1))
            invariant
                j <= e,
                e <= n,
                n == path@.len(),
                forall|k: int| j <= k < e ==> !is_sep(#[trigger] path@[k]),
            decreases j,
        {
            j -= 1;
        }
        proof {
            assert(j < e) by {
                if j == e {
                    assert(is_sep(path@[e as int - 1]));
                }
            }
            assert(forall|k: int| j <= k < prefix.len() ==> !is_sep(#[trigger] prefix[k])) by {
                assert(forall|k: int| j <= k < prefix.len() ==> prefix[k] == #[trigger] path@[k]);
            }
            if j > 0 {
                assert(prefix[j as int - 1] == path@[j as int - 1]);
            }
            lemma_tail_run(prefix, j as int);
            assert(prefix.subrange(j as int, prefix.len() as int) =~= path@.subrange(
                j as int,
                e as int,
            ));
            assert(name_of_path(path@) == path@.subrange(j as int, e as int));
        }
        let seg = path.substring_char(j, e);
        String::from_str(seg)
    }
}

} // verus!
