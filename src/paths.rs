use vstd::prelude::*;

verus! {

pub open spec fn posix_char(c: char) -> char {
    if c == '\\' { '/' } else { c }
}

/// A path with every backslash folded to a forward slash.
pub open spec fn posix(s: Seq<char>) -> Seq<char> {
    s.map_values(|c: char| posix_char(c))
}

/// `s` without its trailing slashes.
pub open spec fn trim_end_slashes(s: Seq<char>) -> Seq<char>
    decreases s.len(),
{
    if s.len() > 0 && s.last() == '/' { trim_end_slashes(s.drop_last()) } else { s }
}

/// `s` without its leading slashes.
pub open spec fn trim_start_slashes(s: Seq<char>) -> Seq<char>
    decreases s.len(),
{
    if s.len() > 0 && s[0] == '/' { trim_start_slashes(s.drop_first()) } else { s }
}

/// The part of `p` below the directory `root`, compared component by
/// component; `None` when `p` does not lie under `root`.
pub open spec fn strip_root(root: Seq<char>, p: Seq<char>) -> Option<Seq<char>> {
    let r = trim_end_slashes(root);
    if r.is_prefix_of(p) && (p.len() == r.len() || p[r.len() as int] == '/') {
        Some(trim_start_slashes(p.subrange(r.len() as int, p.len() as int)))
    } else {
        None
    }
}

/// Whether `p` lies under the directory `root` (or is `root` itself).
pub open spec fn is_under(root: Seq<char>, p: Seq<char>) -> bool {
    strip_root(root, p) is Some
}

/// `rel` appended to `base` with one separator between them; an absolute
/// `rel` replaces `base`.
pub open spec fn join_path(base: Seq<char>, rel: Seq<char>) -> Seq<char> {
    if rel.len() > 0 && rel[0] == '/' {
        rel
    } else if base.len() == 0 || base.last() == '/' {
        base + rel
    } else {
        base + seq!['/'] + rel
    }
}

/// Where a local path lands on the remote: its part below `local_root`
/// joined to `remote_root`, or the path itself when it is not under
/// `local_root`, with slashes only.
pub open spec fn remote_of(local_root: Seq<char>, remote_root: Seq<char>, p: Seq<char>) -> Seq<char> {
    let rel = match strip_root(local_root, p) {
        Some(r) => r,
        None => p,
    };
    posix(join_path(remote_root, rel))
}

/// The path with every backslash replaced by a forward slash.
pub fn as_posix_path(path: &str) -> (r: String)
    ensures
        r@ == posix(path@),
{
    let n = path.unicode_len();
    let mut out = String::new();
    let mut i: usize = 0;
    while i < n
        invariant
            n == path@.len(),
            i <= n,
            out@ == posix(path@.take(i as int)),
        decreases n - i,
    {
        let c = path.get_char(i);
        proof {
            reveal_strlit("/");
            assert(path@.take(i + 1) =~= path@.take(i as int).push(c));
        }
        if c == '\\' {
            out.append("/");
        } else {
            out.append(path.substring_char(i, i + 1));
        }
        assert(out@ =~= posix(path@.take(i + 1)));
        i = i + 1;
    }
    assert(path@.take(n as int) =~= path@);
    out
}

/// The path as the remote side writes it: forward slashes only.
pub fn to_remote_path(path: &str) -> (r: String)
    ensures
        r@ == posix(path@),
{
    as_posix_path(path)
}


/// Length of `s` without its trailing slashes.
fn trimmed_end_len(s: &str) -> (k: usize)
    ensures
        k <= s@.len(),
        trim_end_slashes(s@) == s@.take(k as int),
{
    let mut k: usize = s.unicode_len();
    assert(s@.take(k as int) =~= s@);
    while k > 0 && s.get_char(k - 1) == '/'
        invariant
            k <= s@.len(),
            trim_end_slashes(s@) == trim_end_slashes(s@.take(k as int)),
        decreases k,
    {
        assert(s@.take(k as int).drop_last() =~= s@.take(k - 1));
        k = k - 1;
    }
    k
}

/// Number of leading slashes of `s`.
fn leading_slashes(s: &str) -> (k: usize)
    ensures
        k <= s@.len(),
        trim_start_slashes(s@) == s@.skip(k as int),
{
    let n = s.unicode_len();
    let mut k: usize = 0;
    assert(s@.skip(0) =~= s@);
    while k < n && s.get_char(k) == '/'
        invariant
            n == s@.len(),
            k <= n,
            trim_start_slashes(s@) == trim_start_slashes(s@.skip(k as int)),
        decreases n - k,
    {
        assert(s@.skip(k as int).drop_first() =~= s@.skip(k + 1));
        k = k + 1;
    }
    k
}

/// Whether the first `n` characters of `p` are those of `r`.
fn starts_with_prefix(r: &str, n: usize, p: &str) -> (b: bool)
    requires
        n <= r@.len(),
    ensures
        b == r@.take(n as int).is_prefix_of(p@),
{
    if n > p.unicode_len() {
        return false;
    }
    let mut i: usize = 0;
    while i < n
        invariant
            i <= n,
            n <= r@.len(),
            n <= p@.len(),
            forall|j: int| 0 <= j < i ==> r@[j] == p@[j],
        decreases n - i,
    {
        if r.get_char(i) != p.get_char(i) {
            assert(r@.take(n as int)[i as int] != p@.subrange(0, n as int)[i as int]);
            return false;
        }
        i = i + 1;
    }
    assert(r@.take(n as int) =~= p@.subrange(0, n as int));
    true
}

/// Whether two strings hold the same characters.
pub fn same_text(a: &str, b: &str) -> (r: bool)
    ensures
        r == (a@ == b@),
{
    let n = a.unicode_len();
    if n != b.unicode_len() {
        return false;
    }
    let r = starts_with_prefix(b, n, a);
    assert(b@.take(n as int) =~= b@);
    proof {
        if r {
            assert(a@ =~= b@);
        }
    }
    r
}

/// The part of `p` below `root`, as `strip_root` describes it.
fn strip_root_of(root: &str, p: &str) -> (r: Option<String>)
    ensures
        match r {
            Some(x) => strip_root(root@, p@) == Some(x@),
            None => strip_root(root@, p@) is None,
        },
{
    let rl = trimmed_end_len(root);
    let pl = p.unicode_len();
    if !starts_with_prefix(root, rl, p) {
        return None;
    }
    if rl < pl && p.get_char(rl) != '/' {
        return None;
    }
    let rest = p.substring_char(rl, pl);
    let k = leading_slashes(rest);
    let out = rest.substring_char(k, rest.unicode_len());
    assert(out@ =~= rest@.skip(k as int));
    Some(String::from_str(out))
}

/// `rel` joined below `base`, as `join_path` describes it.
pub(crate) fn join_below(base: &str, rel: &str) -> (r: String)
    ensures
        r@ == join_path(base@, rel@),
{
    let bl = base.unicode_len();
    let rl = rel.unicode_len();
    proof {
        reveal_strlit("/");
    }
    if rl > 0 && rel.get_char(0) == '/' {
        String::from_str(rel)
    } else if bl == 0 || base.get_char(bl - 1) == '/' {
        let mut out = String::from_str(base);
        out.append(rel);
        out
    } else {
        let mut out = String::from_str(base);
        out.append("/");
        out.append(rel);
        assert(out@ =~= base@ + seq!['/'] + rel@);
        out
    }
}

/// Where the local path `local_path` lands on the remote: its part below
/// `local` joined to `remote`, or `local_path` itself when it does not lie
/// under `local`, with backslashes folded to forward slashes.
pub fn remote_path(local: &str, remote: &str, local_path: &str) -> (r: String)
    ensures
        r@ == remote_of(local@, remote@, local_path@),
{
    let joined = match strip_root_of(local, local_path) {
        Some(rel) => join_below(remote, rel.as_str()),
        None => join_below(remote, local_path),
    };
    as_posix_path(joined.as_str())
}


/// The proper parent directories of `s` among its first `n` characters:
/// each non-empty prefix that a `/` follows, shortest first.
pub open spec fn parents_upto(s: Seq<char>, n: nat) -> Seq<Seq<char>>
    decreases n,
{
    if n == 0 {
        Seq::empty()
    } else if n <= s.len() && s[n - 1] == '/' && n > 1 {
        parents_upto(s, (n - 1) as nat).push(s.take(n - 1))
    } else {
        parents_upto(s, (n - 1) as nat)
    }
}

/// The directories to create, top down, so that `s` exists: its parents,
/// then `s` itself unless it is empty or the root.
pub open spec fn dir_chain_of(s: Seq<char>) -> Seq<Seq<char>> {
    if s.len() == 0 || s =~= seq!['/'] {
        parents_upto(s, s.len())
    } else {
        parents_upto(s, s.len()).push(s)
    }
}

/// The directories to create, top down, so that the directory `path` exists.
pub fn dir_chain(path: &str) -> (r: Vec<String>)
    ensures
        r@.map_values(|d: String| d@) == dir_chain_of(path@),
{
    let n = path.unicode_len();
    let mut out: Vec<String> = Vec::new();
    let mut i: usize = 0;
    while i < n
        invariant
            n == path@.len(),
            i <= n,
            out@.map_values(|d: String| d@) == parents_upto(path@, i as nat),
        decreases n - i,
    {
        let ghost before = out@;
        if i > 0 && path.get_char(i) == '/' {
            out.push(String::from_str(path.substring_char(0, i)));
            assert(out@.map_values(|d: String| d@) =~= before.map_values(|d: String| d@).push(path@.take(i as int)));
        } else {
            assert(out@ == before);
        }
        i = i + 1;
    }
    let ghost before = out@;
    let is_root = n == 1 && path.get_char(0) == '/';
    proof {
        if is_root {
            assert(path@ =~= seq!['/']);
        }
    }
    if n > 0 && !is_root {
        out.push(String::from_str(path));
        assert(out@.map_values(|d: String| d@) =~= before.map_values(|d: String| d@).push(path@));
    }
    out
}

pub open spec fn no_backslash(s: Seq<char>) -> bool {
    forall|i: int| 0 <= i < s.len() ==> s[i] != '\\'
}

/// A local path under the local root lands under the remote root, and a
/// remote path never holds a backslash.
pub proof fn lemma_remote_of_under(local_root: Seq<char>, remote_root: Seq<char>, p: Seq<char>)
    requires
        no_backslash(remote_root),
    ensures
        no_backslash(remote_of(local_root, remote_root, p)),
        is_under(local_root, p) ==> remote_root.is_prefix_of(remote_of(local_root, remote_root, p)),
{
    let rel = match strip_root(local_root, p) {
        Some(r) => r,
        None => p,
    };
    let j = join_path(remote_root, rel);
    let x = posix(j);
    if is_under(local_root, p) {
        lemma_trim_start_no_slash(p.subrange(trim_end_slashes(local_root).len() as int, p.len() as int));
        assert(!(rel.len() > 0 && rel[0] == '/'));
        assert forall|i: int| 0 <= i < remote_root.len() implies x[i] == remote_root[i] by {
            if remote_root.len() == 0 || remote_root.last() == '/' {
                assert(j[i] == (remote_root + rel)[i]);
            } else {
                assert(j[i] == (remote_root + seq!['/'] + rel)[i]);
            }
        }
        assert(remote_root =~= x.subrange(0, remote_root.len() as int));
    }
}

proof fn lemma_trim_start_no_slash(s: Seq<char>)
    ensures
        !(trim_start_slashes(s).len() > 0 && trim_start_slashes(s)[0] == '/'),
    decreases s.len(),
{
    if s.len() > 0 && s[0] == '/' {
        lemma_trim_start_no_slash(s.drop_first());
    }
}

/// Folding backslashes is idempotent: a path with forward slashes only is
/// left as it is.
pub proof fn lemma_posix_idempotent(s: Seq<char>)
    ensures
        posix(posix(s)) == posix(s),
{
    assert(posix(posix(s)) =~= posix(s));
}

/// A remote path is not prefixed a second time: mapping it again gives it
/// back, provided the remote root is absolute and the remote path does not
/// itself lie under the local root.
pub proof fn lemma_remote_path_idempotent(local_root: Seq<char>, remote_root: Seq<char>, p: Seq<char>)
    requires
        remote_root.len() > 0,
        remote_root[0] == '/',
        !is_under(local_root, remote_of(local_root, remote_root, p)),
    ensures
        remote_of(local_root, remote_root, remote_of(local_root, remote_root, p))
            == remote_of(local_root, remote_root, p),
{
    let rel = match strip_root(local_root, p) {
        Some(r) => r,
        None => p,
    };
    let j = join_path(remote_root, rel);
    if !(rel.len() > 0 && rel[0] == '/') {
        if remote_root.len() == 0 || remote_root.last() == '/' {
            assert(j[0] == (remote_root + rel)[0]);
        } else {
            assert(j[0] == (remote_root + seq!['/'] + rel)[0]);
        }
    }
    assert(j.len() > 0 && j[0] == '/');
    let x = posix(j);
    assert(x[0] == posix_char(j[0]));
    assert(join_path(remote_root, x) == x);
    lemma_posix_idempotent(j);
}

} // verus!
