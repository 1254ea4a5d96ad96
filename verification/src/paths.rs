//! Path handling for the merge action: the base file name of a path and
//! the destination a moved file gets inside the merge directory.

use vstd::prelude::*;
use vstd::string::StrSliceExecFns;
use vstd::string::StringExecFns;

verus! {

/// The base file name of a path: the characters after the last `/`, or the
/// whole path when it holds no `/`.
pub open spec fn base_name_of(s: Seq<char>) -> Seq<char>
    decreases s.len(),
{
    if s.len() == 0 {
        Seq::empty()
    } else if s.last() == '/' {
        Seq::empty()
    } else {
        base_name_of(s.drop_last()).push(s.last())
    }
}

/// The destination of a moved file: the merge directory, a `/`, and the
/// moved file's base name.
pub open spec fn dest_of(merge_dir: Seq<char>, path: Seq<char>) -> Seq<char> {
    merge_dir + seq!['/'] + base_name_of(path)
}

/// The base file name is the suffix that starts right after the last `/`.
proof fn lemma_base_name_suffix(s: Seq<char>, k: int)
    requires
        0 <= k <= s.len(),
        k == 0 || s[k - 1] == '/',
        forall|j: int| k <= j < s.len() ==> s[j] != '/',
    ensures
        base_name_of(s) == s.subrange(k, s.len() as int),
    decreases s.len(),
{
    if k == s.len() {
        if s.len() == 0 {
            assert(base_name_of(s) =~= s.subrange(k, s.len() as int));
        } else {
            assert(s.last() == '/');
            assert(base_name_of(s) =~= s.subrange(k, s.len() as int));
        }
    } else {
        assert(s[s.len() - 1] != '/');
        lemma_base_name_suffix(s.drop_last(), k);
        assert(base_name_of(s) == s.drop_last().subrange(k, s.len() - 1).push(s.last()));
        assert(s.drop_last().subrange(k, s.len() - 1).push(s.last()) =~= s.subrange(
            k,
            s.len() as int,
        ));
    }
}

/// The base file name of a path: the characters after the last `/`.
#[verifier::loop_isolation(false)]
pub fn base_name(path: &str) -> (r: String)
    ensures
        r@ == base_name_of(path@),
{
    let n = path.unicode_len();
    let mut cut: usize = 0;
    let mut i: usize = 0;
    while i < n
        invariant
            i <= n,
            cut <= i,
            cut == 0 || path@[cut - 1] == '/',
            forall|j: int| cut <= j < i ==> path@[j] != '/',
        decreases n - i,
    {
        if path.get_char(i) == '/' {
            cut = i + 1;
        }
        i += 1;
    }
    let sub = path.substring_char(cut, n);
    proof {
        lemma_base_name_suffix(path@, cut as int);
    }
    String::from_str(sub)
}

/// The destination path of one moved file: the merge directory, a `/`, and
/// the file's base name.
pub fn dest_path(merge_dir: &str, path: &str) -> (r: String)
    ensures
        r@ == dest_of(merge_dir@, path@),
{
    let base = base_name(path);
    let mut r = String::from_str(merge_dir);
    r.append("/");
    r.append(base.as_str());
    proof {
        reveal_strlit("/");
        assert(("/")@ =~= seq!['/']);
        assert(r@ =~= merge_dir@ + seq!['/'] + base_name_of(path@));
    }
    r
}

} // verus!
