use vstd::prelude::*;

verus! {

/// `s` with every trailing `/` taken off.
pub open spec fn trim_trailing_slashes(s: Seq<char>) -> Seq<char>
    decreases s.len(),
{
    if s.len() > 0 && s.last() == '/' {
        trim_trailing_slashes(s.drop_last())
    } else {
        s
    }
}

/// `s` with every leading `/` taken off.
pub open spec fn trim_leading_slashes(s: Seq<char>) -> Seq<char>
    decreases s.len(),
{
    if s.len() > 0 && s[0] == '/' {
        trim_leading_slashes(s.drop_first())
    } else {
        s
    }
}

/// The outbound address for `target` and a path suffix: the target unchanged
/// when the suffix is empty, else the two joined by exactly one `/`.
pub open spec fn compose_url(target: Seq<char>, suffix: Seq<char>) -> Seq<char> {
    if suffix.len() == 0 {
        target
    } else {
        trim_trailing_slashes(target) + seq!['/'] + trim_leading_slashes(suffix)
    }
}

/// Number of characters left in `s` once its trailing slashes are taken off.
fn trailing_trim_len(s: &str) -> (n: usize)
    ensures
        n <= s@.len(),
        s@.subrange(0, n as int) == trim_trailing_slashes(s@),
{
    let mut n: usize = s.unicode_len();
    assert(s@.subrange(0, n as int) == s@);
    while n > 0 && s.get_char(n - 1) == '/'
        invariant
            n <= s@.len(),
            trim_trailing_slashes(s@.subrange(0, n as int)) == trim_trailing_slashes(s@),
        decreases n,
    {
        assert(s@.subrange(0, n as int).drop_last() == s@.subrange(0, n - 1));
        n = n - 1;
    }
    n
}

/// Index of the first character of `s` that follows its leading slashes.
fn leading_trim_start(s: &str) -> (k: usize)
    ensures
        k <= s@.len(),
        s@.subrange(k as int, s@.len() as int) == trim_leading_slashes(s@),
{
    let len: usize = s.unicode_len();
    let mut k: usize = 0;
    assert(s@.subrange(0, s@.len() as int) == s@);
    while k < len && s.get_char(k) == '/'
        invariant
            len == s@.len(),
            k <= len,
            trim_leading_slashes(s@.subrange(k as int, len as int)) == trim_leading_slashes(s@),
        decreases len - k,
    {
        assert(s@.subrange(k as int, len as int).drop_first() == s@.subrange(k + 1, len as int));
        k = k + 1;
    }
    k
}

/// Joins a target base address and a path suffix with exactly one `/`; an
/// empty suffix leaves the target as it is.
pub fn compose(target: &str, suffix: &str) -> (r: String)
    ensures
        r@ == compose_url(target@, suffix@),
{
    let slen: usize = suffix.unicode_len();
    if slen == 0 {
        return target.to_owned();
    }
    let n = trailing_trim_len(target);
    let k = leading_trim_start(suffix);
    let mut r = target.substring_char(0, n).to_owned();
    r.append("/");
    r.append(suffix.substring_char(k, slen));
    proof {
        reveal_strlit("/");
    }
    assert(r@ == trim_trailing_slashes(target@) + seq!['/'] + trim_leading_slashes(suffix@));
    r
}

} // verus!
