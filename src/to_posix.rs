use vstd::prelude::*;
use vstd::string::{StrSliceExecFns, StringExecFns};
use crate::drive::{ascii_lower, get_drive_letter, get_prefix_for_drive, mount_prefix};
use crate::host_path::{
    disk_prefix_len, is_absolute, is_sep, is_sep_char, is_verbatim, parse_prefix, prefix_of, Prefix,
};
use crate::text::push_char;

verus! {

/// Why a host-side path could not be translated.
#[derive(Clone, Copy, Debug, PartialEq, Eq)]
pub enum PathError {
    /// The path starts with a prefix that names no drive (a server share,
    /// a device, a verbatim path other than a verbatim disk).
    UnsupportedPrefix,
}

/// The pieces of `s` between separators, in order. There is always one, the
/// last being the piece that the end of `s` leaves open.
pub open spec fn pieces(s: Seq<char>, verbatim: bool) -> Seq<Seq<char>>
    decreases s.len(),
{
    if s.len() == 0 {
        seq![seq![]]
    } else {
        let prev = pieces(s.drop_last(), verbatim);
        if is_sep(s.last(), verbatim) {
            prev.push(seq![])
        } else {
            prev.drop_last().push(prev.last().push(s.last()))
        }
    }
}

/// Whether the piece at `index` is a component of the path: empty pieces are
/// not, and neither is `.` except as the first piece or in a verbatim path.
pub open spec fn is_component(piece: Seq<char>, index: int, verbatim: bool) -> bool {
    piece.len() > 0 && (piece != seq!['.'] || verbatim || index == 0)
}

/// The components among the pieces, in order.
pub open spec fn components(ps: Seq<Seq<char>>, verbatim: bool) -> Seq<Seq<char>>
    decreases ps.len(),
{
    if ps.len() == 0 {
        seq![]
    } else {
        let k = components(ps.drop_last(), verbatim);
        if is_component(ps.last(), ps.len() - 1, verbatim) {
            k.push(ps.last())
        } else {
            k
        }
    }
}

/// `c` appended to `acc`, with a `/` between them unless `acc` is empty or
/// already ends with one.
pub open spec fn join_onto(acc: Seq<char>, c: Seq<char>) -> Seq<char> {
    if acc.len() > 0 && acc.last() != '/' {
        acc + seq!['/'] + c
    } else {
        acc + c
    }
}

/// The components appended one by one to `base`.
pub open spec fn render(base: Seq<char>, cs: Seq<Seq<char>>) -> Seq<char>
    decreases cs.len(),
{
    if cs.len() == 0 {
        base
    } else {
        join_onto(render(base, cs.drop_last()), cs.last())
    }
}

/// The POSIX form of a host-side path: the drive's mount prefix, if the path
/// has a disk prefix, then the components joined by `/`.
pub open spec fn posix_path(v: Seq<char>) -> Result<Seq<char>, PathError> {
    let p = prefix_of(v);
    match p {
        None => Ok(render(seq![], components(pieces(v, false), false))),
        Some(Prefix::Disk(d)) | Some(Prefix::VerbatimDisk(d)) => Ok(
            render(
                mount_prefix(seq![ascii_lower(d)]),
                components(
                    pieces(v.subrange(disk_prefix_len(p), v.len() as int), is_verbatim(p)),
                    is_verbatim(p),
                ),
            ),
        ),
        Some(_) => Err(PathError::UnsupportedPrefix),
    }
}

/// The index of the first `=` in `a` from `i` on, or the length of `a`.
pub open spec fn eq_index(a: Seq<char>, i: int) -> int
    decreases a.len() - i,
{
    if i < 0 || i >= a.len() {
        a.len() as int
    } else if a[i] == '=' {
        i
    } else {
        eq_index(a, i + 1)
    }
}

/// `--name=value`: two leading dashes and an `=`.
pub open spec fn is_long_argument(a: Seq<char>) -> bool {
    a.len() >= 2 && a[0] == '-' && a[1] == '-' && eq_index(a, 0) < a.len()
}

/// The `--name=` part of a long argument; empty for any other argument.
pub open spec fn flag_part(a: Seq<char>) -> Seq<char> {
    if is_long_argument(a) {
        a.subrange(0, eq_index(a, 0) + 1)
    } else {
        seq![]
    }
}

/// The value of a long argument; the whole of any other argument.
pub open spec fn value_part(a: Seq<char>) -> Seq<char> {
    if is_long_argument(a) {
        a.subrange(eq_index(a, 0) + 1, a.len() as int)
    } else {
        a
    }
}

/// An argument as the subprocess gets it. `on_disk` tells whether the value
/// names something on the disk. A value that is neither absolute nor there is
/// no path, and the argument is kept as it is; else the value is translated.
pub open spec fn posix_argument(a: Seq<char>, on_disk: bool) -> Result<Seq<char>, PathError> {
    let v = value_part(a);
    if !is_absolute(v) && !on_disk {
        Ok(a)
    } else {
        match posix_path(v) {
            Ok(p) => Ok(flag_part(a) + p),
            Err(e) => Err(e),
        }
    }
}

proof fn lemma_eq_index_bounds(a: Seq<char>, i: int)
    requires
        0 <= i <= a.len(),
    ensures
        i <= eq_index(a, i) <= a.len(),
        eq_index(a, i) < a.len() ==> a[eq_index(a, i)] == '=',
        forall|j: int| i <= j < eq_index(a, i) ==> a[j] != '=',
    decreases a.len() - i,
{
    if i < a.len() && a[i] != '=' {
        lemma_eq_index_bounds(a, i + 1);
    }
}

/// Splits `--name=value` into `--name=` and `value`; any other argument
/// into an empty flag and itself.
pub fn split_long_argument(argument: &str) -> (r: (String, String))
    ensures
        r.0@ == flag_part(argument@),
        r.1@ == value_part(argument@),
{
    let n = argument.unicode_len();
    let mut k: usize = 0;
    while k < n && argument.get_char(k) != '='
        invariant
            k <= n,
            n == argument@.len(),
            eq_index(argument@, k as int) == eq_index(argument@, 0),
        decreases n - k,
    {
        k = k + 1;
    }
    proof {
        lemma_eq_index_bounds(argument@, 0);
    }
    if n >= 2 && argument.get_char(0) == '-' && argument.get_char(1) == '-' && k < n {
        let flag = String::from_str(argument.substring_char(0, k + 1));
        let value = String::from_str(argument.substring_char(k + 1, n));
        (flag, value)
    } else {
        proof {
            reveal_strlit("");
        }
        (String::from_str(""), String::from_str(argument))
    }
}

fn join_component(acc: &mut String, c: &str)
    ensures
        final(acc)@ == join_onto(old(acc)@, c@),
{
    let n = acc.as_str().unicode_len();
    if n > 0 && acc.as_str().get_char(n - 1) != '/' {
        push_char(acc, '/');
    }
    acc.append(c);
}

/// Appends the components of `v` from index `from` on to `acc`.
fn append_components(acc: &mut String, v: &str, from: usize, verbatim: bool)
    requires
        from <= v@.len(),
    ensures
        final(acc)@ == render(
            old(acc)@,
            components(pieces(v@.subrange(from as int, v@.len() as int), verbatim), verbatim),
        ),
{
    let ghost base = acc@;
    let n = v.unicode_len();
    let mut i: usize = from;
    let mut start: usize = from;
    let mut first = true;
    proof {
        assert(v@.subrange(from as int, from as int) == Seq::<char>::empty());
        assert(v@.subrange(from as int, from as int) == v@.subrange(start as int, from as int));
    }
    while i < n
        invariant
            from <= start <= i <= n,
            n == v@.len(),
            pieces(v@.subrange(from as int, i as int), verbatim).len() >= 1,
            first == (pieces(v@.subrange(from as int, i as int), verbatim).len() == 1),
            pieces(v@.subrange(from as int, i as int), verbatim).last() == v@.subrange(
                start as int,
                i as int,
            ),
            acc@ == render(
                base,
                components(pieces(v@.subrange(from as int, i as int), verbatim).drop_last(), verbatim),
            ),
        decreases n - i,
    {
        let ghost ps = pieces(v@.subrange(from as int, i as int), verbatim);
        let c = v.get_char(i);
        assert(v@.subrange(from as int, i + 1).drop_last() == v@.subrange(from as int, i as int));
        assert(v@.subrange(from as int, i + 1).last() == c);
        if is_sep_char(c, verbatim) {
            let seg = v.substring_char(start, i);
            let dot = i - start == 1 && v.get_char(start) == '.';
            proof {
                if i - start == 1 {
                    assert(dot == (seg@ == seq!['.'])) by {
                        if seg@ == seq!['.'] {
                            assert(seg@[0] == '.');
                        }
                        if dot {
                            assert(seg@ == seq!['.']);
                        }
                    }
                } else {
                    assert(seg@.len() != 1);
                }
                assert(ps.push(seq![]).drop_last() == ps);
                assert(ps == ps.drop_last().push(ps.last()));
            }
            if i > start && (!dot || verbatim || first) {
                join_component(acc, seg);
            }
            proof {
                assert(pieces(v@.subrange(from as int, i + 1), verbatim) == ps.push(seq![]));
                assert(is_component(ps.last(), ps.len() - 1, verbatim) == (i > start && (!dot
                    || verbatim || first)));
                assert(components(ps, verbatim) == if is_component(ps.last(), ps.len() - 1, verbatim) {
                    components(ps.drop_last(), verbatim).push(ps.last())
                } else {
                    components(ps.drop_last(), verbatim)
                });
                if is_component(ps.last(), ps.len() - 1, verbatim) {
                    let cs = components(ps.drop_last(), verbatim).push(ps.last());
                    assert(cs.drop_last() == components(ps.drop_last(), verbatim));
                    assert(acc@ == render(base, cs));
                }
                assert(v@.subrange(i + 1, i + 1) == Seq::<char>::empty());
            }
            first = false;
            start = i + 1;
        } else {
            proof {
                let np = ps.drop_last().push(ps.last().push(c));
                assert(pieces(v@.subrange(from as int, i + 1), verbatim) == np);
                assert(np.drop_last() == ps.drop_last());
                assert(ps.last().push(c) == v@.subrange(start as int, i + 1));
            }
        }
        i = i + 1;
    }
    let seg = v.substring_char(start, n);
    let dot = n - start == 1 && v.get_char(start) == '.';
    proof {
        let ps = pieces(v@.subrange(from as int, n as int), verbatim);
        if n - start == 1 {
            assert(dot == (seg@ == seq!['.'])) by {
                if seg@ == seq!['.'] {
                    assert(seg@[0] == '.');
                }
                if dot {
                    assert(seg@ == seq!['.']);
                }
            }
        } else {
            assert(seg@.len() != 1);
        }
        assert(v@.subrange(from as int, n as int) == v@.subrange(from as int, v@.len() as int));
    }
    if n > start && (!dot || verbatim || first) {
        join_component(acc, seg);
    }
    proof {
        let ps = pieces(v@.subrange(from as int, n as int), verbatim);
        assert(is_component(ps.last(), ps.len() - 1, verbatim) == (n > start && (!dot || verbatim
            || first)));
        if is_component(ps.last(), ps.len() - 1, verbatim) {
            let cs = components(ps.drop_last(), verbatim).push(ps.last());
            assert(cs.drop_last() == components(ps.drop_last(), verbatim));
        }
    }
}

/// Whether a separator follows the prefix of `v`.
fn check_root(v: &str, p: Option<Prefix>) -> (r: bool)
    requires
        p == prefix_of(v@),
    ensures
        r == crate::host_path::has_root(v@),
{
    let n = v.unicode_len();
    let k: usize = match p {
        Some(Prefix::Disk(_)) => 2,
        Some(Prefix::VerbatimDisk(_)) => 6,
        _ => 0,
    };
    let vb = match p {
        Some(Prefix::VerbatimDisk(_)) | Some(Prefix::Verbatim) | Some(Prefix::VerbatimUNC) => true,
        _ => false,
    };
    k < n && is_sep_char(v.get_char(k), vb)
}

/// The POSIX form of a host-side path: `C:\a\b` becomes `/mnt/c/a/b`, `.\a`
/// becomes `./a`. A prefix that names no drive is an error.
pub fn translate_host_path(v: &str) -> (r: Result<String, PathError>)
    ensures
        match r {
            Ok(s) => posix_path(v@) == Ok::<Seq<char>, PathError>(s@),
            Err(e) => posix_path(v@) == Err::<Seq<char>, PathError>(e),
        },
{
    let p = parse_prefix(v);
    match p {
        None => {
            let mut acc = String::new();
            proof {
                assert(v@.subrange(0, v@.len() as int) == v@);
            }
            append_components(&mut acc, v, 0, false);
            Ok(acc)
        },
        Some(Prefix::Disk(_)) | Some(Prefix::VerbatimDisk(_)) => {
            let (from, verbatim): (usize, bool) = match p {
                Some(Prefix::Disk(_)) => (2, false),
                _ => (6, true),
            };
            let pc = p.unwrap();
            let d = get_drive_letter(&pc);
            let d = d.unwrap();
            let mut acc = get_prefix_for_drive(d.as_str());
            append_components(&mut acc, v, from, verbatim);
            Ok(acc)
        },
        Some(_) => Err(PathError::UnsupportedPrefix),
    }
}

/// Translates one command-line argument for the subprocess. `on_disk` tells
/// whether the argument's value (see `split_long_argument`) names something on
/// the disk. An absolute or existing path becomes its POSIX form, a flag
/// `--name=` before it kept; any other argument is kept as it is.
pub fn translate_path_to_unix(argument: String, on_disk: bool) -> (r: Result<String, PathError>)
    ensures
        match r {
            Ok(s) => posix_argument(argument@, on_disk) == Ok::<Seq<char>, PathError>(s@),
            Err(e) => posix_argument(argument@, on_disk) == Err::<Seq<char>, PathError>(e),
        },
{
    let (flag, value) = split_long_argument(argument.as_str());
    let p = parse_prefix(value.as_str());
    let absolute = match p {
        None => false,
        Some(Prefix::Disk(_)) => check_root(value.as_str(), p),
        Some(_) => true,
    };
    if !absolute && !on_disk {
        return Ok(argument);
    }
    match translate_host_path(value.as_str()) {
        Ok(path) => {
            let mut r = flag;
            r.append(path.as_str());
            Ok(r)
        },
        Err(e) => Err(e),
    }
}

} // verus!
