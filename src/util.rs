//! Paths are '/'-separated strings, taken as given (no normalisation): the
//! last component is the file name, and the extension is what follows the
//! last '.' of the file name, unless that dot begins the name.
use vstd::prelude::*;

verus! {

/// Position of the last `c` in `s`, or -1.
pub open spec fn last_index_of(s: Seq<char>, c: char) -> int
    decreases s.len(),
{
    if s.len() == 0 {
        -1
    } else if s.last() == c {
        s.len() - 1
    } else {
        last_index_of(s.drop_last(), c)
    }
}

/// The last component of a path.
pub open spec fn file_name(p: Seq<char>) -> Seq<char> {
    p.subrange(last_index_of(p, '/') + 1, p.len() as int)
}

/// The extension of a path, without its dot.
pub open spec fn extension_of(p: Seq<char>) -> Option<Seq<char>> {
    let name = file_name(p);
    let k = last_index_of(name, '.');
    if k <= 0 || name =~= seq!['.', '.'] {
        None
    } else {
        Some(name.subrange(k + 1, name.len() as int))
    }
}

/// Length of the path without its extension and the dot before it.
pub open spec fn stem_len(p: Seq<char>) -> int {
    match extension_of(p) {
        Some(e) => p.len() - e.len() - 1,
        None => p.len() as int,
    }
}

/// The path with its extension replaced by `ext` (or added, where it has none).
pub open spec fn with_extension(p: Seq<char>, ext: Seq<char>) -> Seq<char> {
    let stem = p.subrange(0, stem_len(p));
    if ext.len() == 0 {
        stem
    } else {
        stem + seq!['.'] + ext
    }
}

/// The prefix that a path below `root` starts with.
pub open spec fn dir_prefix(root: Seq<char>) -> Seq<char> {
    if root.len() == 0 || root.last() == '/' {
        root
    } else {
        root + seq!['/']
    }
}

/// The part of `p` below `root`, if `p` is `root` (the empty path) or lies below it.
pub open spec fn relative_to(p: Seq<char>, root: Seq<char>) -> Option<Seq<char>> {
    let pre = dir_prefix(root);
    if p =~= root || p =~= pre {
        Some(Seq::empty())
    } else if pre.len() < p.len() && p.subrange(0, pre.len() as int) =~= pre {
        Some(p.subrange(pre.len() as int, p.len() as int))
    } else {
        None
    }
}

/// Where a source path lands in the destination tree (the source root
/// itself lands on the destination root).
pub open spec fn mapped_path(
    src: Seq<char>,
    src_root: Seq<char>,
    dst_root: Seq<char>,
    target_ext: Seq<char>,
    set_ext: bool,
) -> Option<Seq<char>> {
    match relative_to(src, src_root) {
        Some(rel) => Some(
            dir_prefix(dst_root) + if set_ext && rel.len() > 0 {
                with_extension(rel, target_ext)
            } else {
                rel
            },
        ),
        None => None,
    }
}

/// The texts of a list of strings.
pub open spec fn texts(v: Seq<String>) -> Seq<Seq<char>> {
    v.map_values(|s: String| s@)
}

/// What `str::to_lowercase` makes of a string.
pub uninterp spec fn lower_of(s: Seq<char>) -> Seq<char>;

/// The path's extension matches one of `exts`, compared in lower case.
pub open spec fn extension_in(p: Seq<char>, exts: Seq<Seq<char>>) -> bool {
    match extension_of(p) {
        Some(e) => exists|i: int| 0 <= i < exts.len() && #[trigger] lower_of(exts[i]) == lower_of(e),
        None => false,
    }
}

pub proof fn lemma_last_index_bounds(s: Seq<char>, c: char)
    ensures
        -1 <= last_index_of(s, c) < s.len(),
        last_index_of(s, c) >= 0 ==> s[last_index_of(s, c)] == c,
    decreases s.len(),
{
    if s.len() > 0 && s.last() != c {
        lemma_last_index_bounds(s.drop_last(), c);
    }
}

/// Relies on `str::to_lowercase`: the result depends on the characters alone.
#[verifier::external_body]
fn lowercase(s: &str) -> (r: String)
    ensures
        r@ == lower_of(s@),
{
    s.to_lowercase()
}

/// Position of the last `c` in `s`.
pub fn last_index(s: &str, c: char) -> (r: Option<usize>)
    ensures
        match r {
            Some(k) => k == last_index_of(s@, c),
            None => last_index_of(s@, c) == -1,
        },
{
    let n = s.unicode_len();
    let mut i: usize = n;
    assert(s@.subrange(0, n as int) =~= s@);
    while i > 0
        invariant
            n == s@.len(),
            i <= n,
            last_index_of(s@, c) == last_index_of(s@.subrange(0, i as int), c),
        decreases i,
    {
        let ch = s.get_char(i - 1);
        let ghost pre = s@.subrange(0, i as int);
        assert(pre.last() == ch);
        if ch == c {
            return Some(i - 1);
        }
        assert(pre.drop_last() =~= s@.subrange(0, i - 1));
        i -= 1;
    }
    assert(s@.subrange(0, 0).len() == 0);
    None
}

/// Where the extension's dot stands in `p`, if `p` has an extension.
fn extension_dot(p: &str) -> (r: Option<usize>)
    ensures
        r is Some <==> extension_of(p@) is Some,
        r matches Some(k) ==> k == stem_len(p@) && k < p@.len()
            && extension_of(p@) == Some(p@.subrange(k + 1, p@.len() as int)),
{
    let n = p.unicode_len();
    proof {
        lemma_last_index_bounds(p@, '/');
    }
    let start: usize = match last_index(p, '/') {
        Some(k) => k + 1,
        None => 0,
    };
    let name = p.substring_char(start, n);
    proof {
        lemma_last_index_bounds(name@, '.');
    }
    let dot: usize = match last_index(name, '.') {
        Some(k) => k,
        None => 0,
    };
    if dot == 0 {
        return None;
    }
    if n - start == 2 && name.get_char(0) == '.' && name.get_char(1) == '.' {
        assert(name@ =~= seq!['.', '.']);
        return None;
    }
    assert(!(name@ =~= seq!['.', '.']));
    let k: usize = start + dot;
    assert(name@.subrange(dot + 1, name@.len() as int) =~= p@.subrange(k + 1, p@.len() as int));
    Some(k)
}

/// Each text in lower case.
pub open spec fn lowered_all(v: Seq<Seq<char>>) -> Seq<Seq<char>> {
    v.map_values(|e: Seq<char>| lower_of(e))
}

/// Whether the lowered extension `ext_lower` is one of the lowered
/// extensions `lowered`.
pub fn extension_matches(ext_lower: &String, lowered: &Vec<String>) -> (r: bool)
    ensures
        r == texts(lowered@).contains(ext_lower@),
{
    let mut i: usize = 0;
    while i < lowered.len()
        invariant
            i <= lowered@.len(),
            forall|j: int| 0 <= j < i ==> lowered@[j]@ != ext_lower@,
        decreases lowered@.len() - i,
    {
        if lowered[i] == *ext_lower {
            assert(texts(lowered@)[i as int] == ext_lower@);
            return true;
        }
        i += 1;
    }
    assert forall|j: int| 0 <= j < texts(lowered@).len() implies texts(lowered@)[j] != ext_lower@ by {
        assert(texts(lowered@)[j] == lowered@[j]@);
    }
    false
}

/// Whether the extension of `path`, in lower case, is one of `ext_list` in lower case.
pub fn has_extension(path: &str, ext_list: &[String]) -> (r: bool)
    ensures
        r == extension_in(path@, texts(ext_list@)),
{
    let ghost exts = texts(ext_list@);
    match extension_dot(path) {
        None => false,
        Some(k) => {
            let n = path.unicode_len();
            let ext = path.substring_char(k + 1, n);
            let ext_lower = lowercase(ext);
            let mut lowered: Vec<String> = Vec::new();
            let mut i: usize = 0;
            while i < ext_list.len()
                invariant
                    i <= ext_list@.len(),
                    exts == texts(ext_list@),
                    texts(lowered@) =~= lowered_all(exts.subrange(0, i as int)),
                decreases ext_list@.len() - i,
            {
                let e = lowercase(ext_list[i].as_str());
                let ghost before = lowered@;
                lowered.push(e);
                assert(texts(lowered@) =~= texts(before).push(e@));
                assert(exts.subrange(0, i + 1) =~= exts.subrange(0, i as int).push(exts[i as int]));
                assert(lowered_all(exts.subrange(0, i + 1)) =~= lowered_all(exts.subrange(0, i as int)).push(lower_of(exts[i as int])));
                i += 1;
            }
            assert(exts.subrange(0, i as int) =~= exts);
            let r = extension_matches(&ext_lower, &lowered);
            proof {
                let lw = lowered_all(exts);
                if r {
                    let j = choose|j: int| 0 <= j < lw.len() && lw[j] == lower_of(ext@);
                    assert(lower_of(exts[j]) == lower_of(ext@));
                } else {
                    assert forall|j: int| 0 <= j < exts.len() implies #[trigger] lower_of(exts[j]) != lower_of(ext@) by {
                        assert(lw[j] == lower_of(exts[j]));
                    }
                }
            }
            r
        },
    }
}

/// The directory part of a path: all before its last '/'.
pub open spec fn parent_dir(p: Seq<char>) -> Seq<char> {
    if last_index_of(p, '/') >= 0 {
        p.subrange(0, last_index_of(p, '/'))
    } else {
        Seq::empty()
    }
}

/// The directory that holds `p`.
pub fn parent_of(p: &str) -> (r: String)
    ensures
        r@ == parent_dir(p@),
{
    proof {
        lemma_last_index_bounds(p@, '/');
    }
    match last_index(p, '/') {
        Some(k) => String::from_str(p.substring_char(0, k)),
        None => String::new(),
    }
}

/// The decimal digit `d`.
pub open spec fn digit(d: nat) -> char {
    seq!['0', '1', '2', '3', '4', '5', '6', '7', '8', '9'][d as int]
}

/// `n` written in decimal, without leading zeros.
pub open spec fn decimal(n: nat) -> Seq<char>
    decreases n,
{
    if n < 10 {
        seq![digit(n)]
    } else {
        decimal(n / 10).push(digit(n % 10))
    }
}

fn digit_str(d: u32) -> (r: &'static str)
    requires
        d < 10,
    ensures
        r@ == seq![digit(d as nat)],
{
    proof {
        reveal_strlit("0");
        reveal_strlit("1");
        reveal_strlit("2");
        reveal_strlit("3");
        reveal_strlit("4");
        reveal_strlit("5");
        reveal_strlit("6");
        reveal_strlit("7");
        reveal_strlit("8");
        reveal_strlit("9");
    }
    match d {
        0 => "0",
        1 => "1",
        2 => "2",
        3 => "3",
        4 => "4",
        5 => "5",
        6 => "6",
        7 => "7",
        8 => "8",
        _ => "9",
    }
}

/// Appends `n` in decimal to `out`.
pub fn push_decimal(out: &mut String, n: u32)
    ensures
        final(out)@ == old(out)@ + decimal(n as nat),
    decreases n,
{
    if n >= 10 {
        push_decimal(out, n / 10);
    }
    let d = digit_str(n % 10);
    out.append(d);
    assert(final(out)@ =~= old(out)@ + decimal(n as nat));
}

/// A source path that does not lie below the source root.
#[derive(Debug, Clone, Copy, PartialEq, Eq, Structural)]
pub enum PathError {
    OutsideRoot,
}

fn starts_with(s: &str, pre: &str) -> (r: bool)
    ensures
        r == (pre@.len() <= s@.len() && s@.subrange(0, pre@.len() as int) =~= pre@),
{
    let n = pre.unicode_len();
    let m = s.unicode_len();
    if n > m {
        return false;
    }
    let mut i: usize = 0;
    while i < n
        invariant
            n == pre@.len(),
            m == s@.len(),
            n <= m,
            i <= n,
            forall|j: int| 0 <= j < i ==> s@[j] == pre@[j],
        decreases n - i,
    {
        if s.get_char(i) != pre.get_char(i) {
            assert(s@.subrange(0, n as int)[i as int] != pre@[i as int]);
            return false;
        }
        i += 1;
    }
    assert(s@.subrange(0, n as int) =~= pre@);
    true
}

/// The part of `src` below `root`.
fn relative_part<'a>(src: &'a str, root: &str) -> (r: Option<&'a str>)
    requires
        root@.len() < usize::MAX,
    ensures
        match r {
            Some(rel) => relative_to(src@, root@) == Some(rel@),
            None => relative_to(src@, root@) is None,
        },
{
    let n = src.unicode_len();
    let rn = root.unicode_len();
    let needs_slash = rn > 0 && root.get_char(rn - 1) != '/';
    let pl: usize = if needs_slash {
        rn + 1
    } else {
        rn
    };
    let ghost pre = dir_prefix(root@);
    proof {
        if needs_slash {
            assert(pre =~= root@ + seq!['/']);
        }
    }
    assert(pre.len() == pl);
    assert(pre.subrange(0, rn as int) =~= root@);
    if !starts_with(src, root) {
        assert(!(src@ =~= root@));
        assert(!(src@ =~= pre)) by {
            if src@ =~= pre {
                assert(src@.subrange(0, rn as int) =~= root@);
            }
        }
        assert(!(pre.len() < src@.len() && src@.subrange(0, pl as int) =~= pre)) by {
            if pre.len() < src@.len() && src@.subrange(0, pl as int) =~= pre {
                assert(src@.subrange(0, pl as int).subrange(0, rn as int) =~= src@.subrange(0, rn as int));
            }
        }
        return None;
    }
    if n == rn {
        assert(src@ =~= src@.subrange(0, rn as int));
        return Some(src.substring_char(n, n));
    }
    if needs_slash && src.get_char(rn) != '/' {
        assert(!(src@ =~= pre)) by {
            if src@ =~= pre {
                assert(pre[rn as int] == '/');
            }
        }
        assert(src@.subrange(0, pl as int)[rn as int] != pre[rn as int]);
        return None;
    }
    assert(src@.subrange(0, pl as int) =~= pre);
    if n == pl {
        assert(src@ =~= pre);
        return Some(src.substring_char(n, n));
    }
    assert(!(src@ =~= root@) && !(src@ =~= pre));
    Some(src.substring_char(pl, n))
}

/// `rel` with its extension replaced by `ext`.
fn replace_extension(rel: &str, ext: &str) -> (r: String)
    ensures
        r@ == with_extension(rel@, ext@),
{
    let mut out = match extension_dot(rel) {
        Some(k) => String::from_str(rel.substring_char(0, k)),
        None => {
            assert(rel@.subrange(0, stem_len(rel@)) =~= rel@);
            String::from_str(rel)
        },
    };
    if ext.unicode_len() > 0 {
        proof {
            reveal_strlit(".");
        }
        out.append(".");
        out.append(ext);
    }
    out
}

/// The destination of `src`: its part below `src_root` placed below
/// `dst_root`, with the extension replaced by `target_ext` when `set_ext`.
pub fn map_src_to_dst(
    src: &str,
    src_root: &str,
    dst_root: &str,
    target_ext: &str,
    set_ext: bool,
) -> (r: Result<String, PathError>)
    requires
        src_root@.len() < usize::MAX,
    ensures
        match r {
            Ok(d) => mapped_path(src@, src_root@, dst_root@, target_ext@, set_ext) == Some(d@),
            Err(_) => mapped_path(src@, src_root@, dst_root@, target_ext@, set_ext) is None,
        },
{
    let rel = match relative_part(src, src_root) {
        Some(rel) => rel,
        None => {
            return Err(PathError::OutsideRoot);
        },
    };
    let mut out = String::from_str(dst_root);
    let dn = dst_root.unicode_len();
    if dn > 0 && dst_root.get_char(dn - 1) != '/' {
        proof {
            reveal_strlit("/");
        }
        out.append("/");
    }
    assert(out@ =~= dir_prefix(dst_root@));
    if set_ext && rel.unicode_len() > 0 {
        let tail = replace_extension(rel, target_ext);
        out.append(tail.as_str());
    } else {
        out.append(rel);
    }
    Ok(out)
}

} // verus!
