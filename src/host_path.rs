use vstd::prelude::*;
use vstd::string::{StrSliceExecFns, StringExecFns};
use crate::drive::is_ascii_letter;

verus! {

/// The prefix forms of a host-side path.
#[derive(Clone, Copy, Debug, PartialEq, Eq)]
pub enum Prefix {
    /// `\\?\prefix`
    Verbatim,
    /// `\\?\UNC\server\share`
    VerbatimUNC,
    /// `\\?\C:`
    VerbatimDisk(char),
    /// `\\.\device`
    DeviceNS,
    /// `\\server\share`
    UNC,
    /// `C:`
    Disk(char),
}

/// A path separator; a verbatim path knows only the backslash.
pub open spec fn is_sep(c: char, verbatim: bool) -> bool {
    c == '\\' || (!verbatim && c == '/')
}

/// `\\server\share`, with separators of either kind: a non-empty server
/// name, a separator, and a share name that is not empty.
pub open spec fn unc_shape(v: Seq<char>) -> bool {
    exists|k: int|
        2 < k && k + 1 < v.len() && is_sep(#[trigger] v[k], false) && !is_sep(v[k + 1], false)
            && (forall|j: int| 2 <= j < k ==> !is_sep(#[trigger] v[j], false))
}

/// The prefix with which a host-side path begins, if any.
pub open spec fn prefix_of(v: Seq<char>) -> Option<Prefix> {
    if v.len() >= 4 && v[0] == '\\' && v[1] == '\\' && v[2] == '?' && v[3] == '\\' {
        if v.len() >= 8 && v[4] == 'U' && v[5] == 'N' && v[6] == 'C' && v[7] == '\\' {
            Some(Prefix::VerbatimUNC)
        } else if v.len() >= 6 && is_ascii_letter(v[4]) && v[5] == ':' && (v.len() == 6 || v[6]
            == '\\') {
            Some(Prefix::VerbatimDisk(v[4]))
        } else {
            Some(Prefix::Verbatim)
        }
    } else if v.len() >= 2 && is_sep(v[0], false) && is_sep(v[1], false) {
        if v.len() >= 4 && v[2] == '.' && is_sep(v[3], false) {
            Some(Prefix::DeviceNS)
        } else if unc_shape(v) {
            Some(Prefix::UNC)
        } else {
            None
        }
    } else if v.len() >= 2 && is_ascii_letter(v[0]) && v[1] == ':' {
        Some(Prefix::Disk(v[0]))
    } else {
        None
    }
}

/// The number of characters that a disk prefix takes.
pub open spec fn disk_prefix_len(p: Option<Prefix>) -> int {
    match p {
        Some(Prefix::Disk(_)) => 2,
        Some(Prefix::VerbatimDisk(_)) => 6,
        _ => 0,
    }
}

pub open spec fn is_verbatim(p: Option<Prefix>) -> bool {
    p matches Some(Prefix::VerbatimDisk(_)) || p matches Some(Prefix::Verbatim) || p matches Some(
        Prefix::VerbatimUNC,
    )
}

/// A separator follows the prefix.
pub open spec fn has_root(v: Seq<char>) -> bool {
    let p = prefix_of(v);
    let n = disk_prefix_len(p);
    n < v.len() && is_sep(v[n], is_verbatim(p))
}

/// A path is absolute when it has a prefix and a root; every prefix form but
/// a plain disk brings its root with it.
pub open spec fn is_absolute(v: Seq<char>) -> bool {
    match prefix_of(v) {
        None => false,
        Some(Prefix::Disk(_)) => has_root(v),
        Some(_) => true,
    }
}

pub(crate) fn is_sep_char(c: char, verbatim: bool) -> (r: bool)
    ensures
        r == is_sep(c, verbatim),
{
    c == '\\' || (!verbatim && c == '/')
}

fn is_letter(c: char) -> (r: bool)
    ensures
        r == is_ascii_letter(c),
{
    ('a' <= c && c <= 'z') || ('A' <= c && c <= 'Z')
}

/// Decides `\\server\share` by the first separator after the two that open it.
fn has_unc_shape(v: &str, n: usize) -> (r: bool)
    requires
        n == v@.len(),
        n >= 2,
    ensures
        r == unc_shape(v@),
{
    let mut k: usize = 2;
    while k < n && !is_sep_char(v.get_char(k), false)
        invariant
            2 <= k <= n,
            n == v@.len(),
            forall|j: int| 2 <= j < k ==> !is_sep(#[trigger] v@[j], false),
        decreases n - k,
    {
        k = k + 1;
    }
    if k > 2 && k < n - 1 && !is_sep_char(v.get_char(k + 1), false) {
        assert(is_sep(v@[k as int], false));
        true
    } else {
        assert forall|k2: int|
            2 < k2 && k2 + 1 < v@.len() && is_sep(#[trigger] v@[k2], false) && !is_sep(
                v@[k2 + 1],
                false,
            ) implies !(forall|j: int| 2 <= j < k2 ==> !is_sep(#[trigger] v@[j], false)) by {
            if forall|j: int| 2 <= j < k2 ==> !is_sep(#[trigger] v@[j], false) {
                if k2 < k {
                    assert(!is_sep(v@[k2], false));
                } else if k2 > k {
                    assert(!is_sep(v@[k as int], false));
                }
            }
        }
        false
    }
}

/// The prefix with which a host-side path begins, if any.
pub fn parse_prefix(v: &str) -> (r: Option<Prefix>)
    ensures
        r == prefix_of(v@),
{
    let n = v.unicode_len();
    if n >= 4 && v.get_char(0) == '\\' && v.get_char(1) == '\\' && v.get_char(2) == '?'
        && v.get_char(3) == '\\' {
        if n >= 8 && v.get_char(4) == 'U' && v.get_char(5) == 'N' && v.get_char(6) == 'C'
            && v.get_char(7) == '\\' {
            Some(Prefix::VerbatimUNC)
        } else if n >= 6 && is_letter(v.get_char(4)) && v.get_char(5) == ':' && (n == 6
            || v.get_char(6) == '\\') {
            Some(Prefix::VerbatimDisk(v.get_char(4)))
        } else {
            Some(Prefix::Verbatim)
        }
    } else if n >= 2 && is_sep_char(v.get_char(0), false) && is_sep_char(v.get_char(1), false) {
        if n >= 4 && v.get_char(2) == '.' && is_sep_char(v.get_char(3), false) {
            Some(Prefix::DeviceNS)
        } else if has_unc_shape(v, n) {
            Some(Prefix::UNC)
        } else {
            None
        }
    } else if n >= 2 && is_letter(v.get_char(0)) && v.get_char(1) == ':' {
        Some(Prefix::Disk(v.get_char(0)))
    } else {
        None
    }
}

/// The span `(start, end)` of the file name of `v`, scanning back from index
/// `i` over `v[lo..]`; `end` is the end of the piece being read, if any. The
/// file name is the last component: trailing separators and `.` pieces are
/// passed over, and a path whose last component is `.` or `..`, or that has
/// none, has no file name.
pub open spec fn name_span(v: Seq<char>, lo: int, vb: bool, i: int, end: Option<int>) -> Option<
    (int, int),
>
    decreases i - lo,
{
    if i <= lo || is_sep(v[i - 1], vb) {
        match end {
            None => if i <= lo {
                None
            } else {
                name_span(v, lo, vb, i - 1, None)
            },
            Some(e) => {
                let piece = v.subrange(i, e);
                if piece == seq!['.'] && !vb && i > lo {
                    name_span(v, lo, vb, i - 1, None)
                } else if piece == seq!['.'] || piece == seq!['.', '.'] {
                    None
                } else {
                    Some((i, e))
                }
            },
        }
    } else {
        name_span(v, lo, vb, i - 1, if end is None { Some(i) } else { end })
    }
}

/// The index of the last `.` in `v[s..i]`, or -1.
pub open spec fn last_dot(v: Seq<char>, s: int, i: int) -> int
    decreases i - s,
{
    if i <= s {
        -1
    } else if v[i - 1] == '.' {
        i - 1
    } else {
        last_dot(v, s, i - 1)
    }
}

/// Where the stem of the file name `v[s..e]` ends: at its last `.`, unless
/// that dot is its first character or there is none.
pub open spec fn stem_end(v: Seq<char>, s: int, e: int) -> int {
    let d = last_dot(v, s, e);
    if d <= s {
        e
    } else {
        d
    }
}

/// `v` with the extension of its file name replaced by `ext` (dropped, with
/// its dot, when `ext` is empty), all that follows the stem cut off. A path
/// without a file name is kept. A server or device prefix is read as text.
pub open spec fn with_extension(v: Seq<char>, ext: Seq<char>) -> Seq<char> {
    let p = prefix_of(v);
    match name_span(v, disk_prefix_len(p), is_verbatim(p), v.len() as int, None) {
        None => v,
        Some((s, e)) => {
            let t = stem_end(v, s, e);
            if ext.len() == 0 {
                v.subrange(0, t)
            } else {
                v.subrange(0, t) + seq!['.'] + ext
            }
        },
    }
}

pub open spec fn opt_int(o: Option<usize>) -> Option<int> {
    match o {
        Some(e) => Some(e as int),
        None => None,
    }
}

fn file_name_span(v: &str, lo: usize, vb: bool) -> (r: Option<(usize, usize)>)
    requires
        lo <= v@.len(),
    ensures
        opt_pair(r) == name_span(v@, lo as int, vb, v@.len() as int, None),
        r matches Some((s, e)) ==> lo <= s < e <= v@.len(),
{
    let n = v.unicode_len();
    let mut i: usize = n;
    let mut end: Option<usize> = None;
    loop
        invariant
            lo <= i <= n,
            n == v@.len(),
            end matches Some(e) ==> i < e <= n,
            name_span(v@, lo as int, vb, i as int, opt_int(end)) == name_span(
                v@,
                lo as int,
                vb,
                n as int,
                None,
            ),
        decreases i,
    {
        if i <= lo || is_sep_char(v.get_char(i - 1), vb) {
            match end {
                None => {
                    if i <= lo {
                        return None;
                    }
                    i = i - 1;
                },
                Some(e) => {
                    let piece = v.substring_char(i, e);
                    let dot = e - i == 1 && v.get_char(i) == '.';
                    let dots = e - i == 2 && v.get_char(i) == '.' && v.get_char(i + 1) == '.';
                    proof {
                        assert(piece@.len() == e - i);
                        assert(seq!['.'].len() == 1 && seq!['.', '.'].len() == 2);
                        assert(dot == (piece@ == seq!['.'])) by {
                            if piece@ == seq!['.'] {
                                assert(piece@[0] == '.');
                            }
                            if dot {
                                assert(piece@ =~= seq!['.']);
                            }
                        }
                        assert(dots == (piece@ == seq!['.', '.'])) by {
                            if piece@ == seq!['.', '.'] {
                                assert(piece@[0] == '.' && piece@[1] == '.');
                            }
                            if dots {
                                assert(piece@ =~= seq!['.', '.']);
                            }
                        }
                    }
                    if dot && !vb && i > lo {
                        end = None;
                        i = i - 1;
                    } else if dot || dots {
                        return None;
                    } else {
                        return Some((i, e));
                    }
                },
            }
        } else {
            if end.is_none() {
                end = Some(i);
            }
            i = i - 1;
        }
    }
}

pub open spec fn opt_pair(o: Option<(usize, usize)>) -> Option<(int, int)> {
    match o {
        Some((s, e)) => Some((s as int, e as int)),
        None => None,
    }
}

fn find_stem_end(v: &str, s: usize, e: usize) -> (r: usize)
    requires
        s < e <= v@.len(),
    ensures
        r == stem_end(v@, s as int, e as int),
        s < r <= e,
{
    let mut i: usize = e;
    while i > s && v.get_char(i - 1) != '.'
        invariant
            s <= i <= e,
            e <= v@.len(),
            last_dot(v@, s as int, i as int) == last_dot(v@, s as int, e as int),
        decreases i,
    {
        i = i - 1;
    }
    if i <= s + 1 {
        e
    } else {
        i - 1
    }
}

/// The path `Path::with_extension` gives for `v` and `ext` on the host.
pub fn replace_extension(v: &str, ext: &str) -> (r: String)
    ensures
        r@ == with_extension(v@, ext@),
{
    let p = parse_prefix(v);
    let (lo, vb): (usize, bool) = match p {
        Some(Prefix::Disk(_)) => (2, false),
        Some(Prefix::VerbatimDisk(_)) => (6, true),
        Some(Prefix::Verbatim) | Some(Prefix::VerbatimUNC) => (0, true),
        _ => (0, false),
    };
    match file_name_span(v, lo, vb) {
        None => String::from_str(v),
        Some((s, e)) => {
            let t = find_stem_end(v, s, e);
            let mut r = String::from_str(v.substring_char(0, t));
            if ext.unicode_len() > 0 {
                r.append(".");
                r.append(ext);
                proof {
                    reveal_strlit(".");
                }
            }
            r
        },
    }
}

/// The names probed for an editor command, in order: its extension taken
/// off, then `.CMD`, then `.EXE`, as `Path::with_extension` gives them on the
/// host.
pub fn executable_candidates(command: &str) -> (r: Vec<String>)
    ensures
        r@.len() == 3,
        r@[0]@ == with_extension(command@, seq![]),
        r@[1]@ == with_extension(command@, seq!['C', 'M', 'D']),
        r@[2]@ == with_extension(command@, seq!['E', 'X', 'E']),
{
    proof {
        reveal_strlit("");
        reveal_strlit("CMD");
        reveal_strlit("EXE");
    }
    let none = "";
    let cmd = "CMD";
    let exe = "EXE";
    assert(none@ =~= Seq::<char>::empty());
    assert(cmd@ =~= seq!['C', 'M', 'D']);
    assert(exe@ =~= seq!['E', 'X', 'E']);
    let mut r: Vec<String> = Vec::new();
    r.push(replace_extension(command, none));
    r.push(replace_extension(command, cmd));
    r.push(replace_extension(command, exe));
    r
}

} // verus!
