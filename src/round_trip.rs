use vstd::prelude::*;
use vstd::utf8::{encode_scalar, encode_utf8, is_ascii_chars, is_ascii_chars_encode_utf8};
use crate::drive::{ascii_lower, is_ascii_letter, mount_prefix};
use crate::host_path::{has_root, is_absolute, is_sep, prefix_of, Prefix};
use crate::to_host::{host_text, is_space_byte, lemma_copied_unchanged, mount_at};
use crate::to_posix::{
    components, flag_part, is_long_argument, pieces, posix_argument, posix_path, render, PathError,
};

verus! {

/// The components, each after a `/`.
pub open spec fn slashed(cs: Seq<Seq<char>>) -> Seq<char>
    decreases cs.len(),
{
    if cs.len() == 0 {
        seq![]
    } else {
        slashed(cs.drop_last()) + seq!['/'] + cs.last()
    }
}

/// A non-empty name without separators.
pub open spec fn plain_name(c: Seq<char>) -> bool {
    c.len() > 0 && forall|j: int| 0 <= j < c.len() ==> !is_sep(#[trigger] c[j], false)
}

proof fn lemma_pieces_plain(s: Seq<char>)
    ensures
        pieces(s, false).len() >= 1,
        forall|k: int, j: int|
            0 <= k < pieces(s, false).len() && 0 <= j < pieces(s, false)[k].len() ==> !is_sep(
                #[trigger] pieces(s, false)[k][j],
                false,
            ),
    decreases s.len(),
{
    if s.len() > 0 {
        let p = s.drop_last();
        lemma_pieces_plain(p);
        let prev = pieces(p, false);
        if !is_sep(s.last(), false) {
            let lp = prev.last().push(s.last());
            assert(prev[prev.len() - 1] == prev.last());
            let np = prev.drop_last().push(lp);
            assert forall|k: int, j: int| 0 <= k < np.len() && 0 <= j < np[k].len() implies !is_sep(
                #[trigger] np[k][j],
                false,
            ) by {
                if k < np.len() - 1 {
                    assert(np[k] == prev[k]);
                } else if j < prev.last().len() {
                    assert(np[k][j] == prev[prev.len() - 1][j]);
                }
            }
        } else {
            let np = prev.push(seq![]);
            assert forall|k: int, j: int| 0 <= k < np.len() && 0 <= j < np[k].len() implies !is_sep(
                #[trigger] np[k][j],
                false,
            ) by {
                if k < np.len() - 1 {
                    assert(np[k] == prev[k]);
                }
            }
        }
    }
}

proof fn lemma_components_plain(ps: Seq<Seq<char>>)
    requires
        forall|k: int, j: int| 0 <= k < ps.len() && 0 <= j < ps[k].len() ==> !is_sep(#[trigger] ps[k][j], false),
    ensures
        forall|k: int| 0 <= k < components(ps, false).len() ==> plain_name(#[trigger] components(ps, false)[k]),
    decreases ps.len(),
{
    if ps.len() > 0 {
        let p = ps.drop_last();
        assert forall|k: int, j: int| 0 <= k < p.len() && 0 <= j < p[k].len() implies !is_sep(#[trigger] p[k][j], false) by {
            assert(p[k] == ps[k]);
        }
        lemma_components_plain(p);
        let last = ps[ps.len() - 1];
        assert(ps.last() == last);
        assert forall|j: int| 0 <= j < last.len() implies !is_sep(#[trigger] last[j], false) by {
            assert(!is_sep(ps[ps.len() - 1][j], false));
        }
        let cs = components(p, false);
        if last.len() > 0 {
            assert forall|k: int| 0 <= k < cs.push(last).len() implies plain_name(#[trigger] cs.push(last)[k]) by {
                if k < cs.len() {
                    assert(cs.push(last)[k] == cs[k]);
                }
            }
        }
    }
}

proof fn lemma_render_slashed(base: Seq<char>, cs: Seq<Seq<char>>)
    requires
        base.len() > 0,
        base.last() != '/',
        forall|k: int| 0 <= k < cs.len() ==> plain_name(#[trigger] cs[k]),
    ensures
        render(base, cs) == base + slashed(cs),
        cs.len() > 0 ==> slashed(cs).len() > 0 && slashed(cs)[0] == '/',
    decreases cs.len(),
{
    if cs.len() > 0 {
        let p = cs.drop_last();
        assert forall|k: int| 0 <= k < p.len() implies plain_name(#[trigger] p[k]) by {
            assert(p[k] == cs[k]);
        }
        lemma_render_slashed(base, p);
        let c = cs[cs.len() - 1];
        assert(cs.last() == c);
        assert(plain_name(c));
        let acc = base + slashed(p);
        assert(acc.last() != '/') by {
            if slashed(p).len() > 0 {
                assert(acc.last() == slashed(p).last());
                assert(p.len() > 0);
                let pl = p[p.len() - 1];
                assert(p.last() == pl);
                assert(plain_name(pl));
                assert(slashed(p).last() == pl[pl.len() - 1]);
                assert(!is_sep(pl[pl.len() - 1], false));
            } else {
                assert(acc == base);
            }
        }
        assert(render(base, cs) == acc + seq!['/'] + c);
        assert(acc + seq!['/'] + c == base + (slashed(p) + seq!['/'] + c));
        let t = slashed(cs);
        assert(t == slashed(p) + seq!['/'] + c);
        if p.len() == 0 {
            assert(t[0] == '/');
        } else {
            assert(t[0] == slashed(p)[0]);
        }
    }
}

/// The components of the rest `S` of a rooted disk path `L:\S`.
pub open spec fn rooted_components(rest: Seq<char>) -> Seq<Seq<char>> {
    components(pieces(seq!['\\'] + rest, false), false)
}

/// Somewhere in `t` a `/mnt/<letter>/` comes after a whitespace byte.
pub open spec fn mount_after_blank(t: Seq<u8>) -> bool {
    exists|w: int, k: int| 0 <= w < k && is_space_byte(#[trigger] t[w]) && #[trigger] mount_at(t, k)
}

proof fn lemma_encode_concat(a: Seq<char>, b: Seq<char>)
    ensures
        encode_utf8(a + b) == encode_utf8(a) + encode_utf8(b),
    decreases a.len(),
{
    if a.len() == 0 {
        assert(a + b == b);
    } else {
        assert((a + b)[0] == a[0]);
        assert((a + b).drop_first() == a.drop_first() + b);
        lemma_encode_concat(a.drop_first(), b);
        assert(encode_utf8(a + b) == encode_scalar(a[0] as u32) + encode_utf8(a.drop_first() + b));
    }
}

/// Forward then reverse translation gives the drive-letter form back. The
/// path `L:\S` goes forward to `/mnt/l` followed by the components of `S`,
/// each after a `/`; the reverse scan of the UTF-8 bytes of that text gives
/// `l:` followed by the same components: the letter in lower case, every
/// separator a `/`. This holds for paths with at least one component in
/// whose forward form no `/mnt/<letter>/` follows a whitespace (the scan
/// would rewrite that one too).
pub proof fn lemma_round_trip(drive: char, rest: Seq<char>, on_disk: bool)
    requires
        is_ascii_letter(drive),
        rooted_components(rest).len() > 0,
        !mount_after_blank(encode_utf8(slashed(rooted_components(rest)))),
    ensures
        posix_argument(seq![drive, ':', '\\'] + rest, on_disk) == Ok::<Seq<char>, PathError>(
            mount_prefix(seq![ascii_lower(drive)]) + slashed(rooted_components(rest)),
        ),
        host_text(encode_utf8(mount_prefix(seq![ascii_lower(drive)]) + slashed(rooted_components(rest))))
            == encode_utf8(seq![ascii_lower(drive), ':'] + slashed(rooted_components(rest))),
{
    let v = seq![drive, ':', '\\'] + rest;
    let l = ascii_lower(drive);
    let cs = rooted_components(rest);
    let t = slashed(cs);
    let base = mount_prefix(seq![l]);
    let pth = base + t;
    let sr = seq!['\\'] + rest;
    assert(v[0] == drive && v[1] == ':' && v[2] == '\\');
    assert(prefix_of(v) == Some(Prefix::Disk(drive)));
    assert(v.subrange(2, v.len() as int) == sr);
    assert(has_root(v));
    assert(is_absolute(v));
    assert(!is_long_argument(v));
    lemma_pieces_plain(sr);
    lemma_components_plain(pieces(sr, false));
    assert(base.last() == l);
    lemma_render_slashed(base, cs);
    assert(flag_part(v) + pth == pth);
    assert(posix_path(v) == Ok::<Seq<char>, PathError>(pth));
    let h2 = seq![l, ':'];
    let h = h2 + t;
    let slash = seq!['/'];
    assert(is_ascii_chars(base));
    assert(is_ascii_chars(h2));
    assert(is_ascii_chars(slash));
    is_ascii_chars_encode_utf8(base);
    is_ascii_chars_encode_utf8(h2);
    is_ascii_chars_encode_utf8(slash);
    lemma_encode_concat(base, t);
    lemma_encode_concat(h2, t);
    assert(t == slash + t.drop_first());
    lemma_encode_concat(slash, t.drop_first());
    let b = encode_utf8(pth);
    let tb = encode_utf8(t);
    let eb = encode_utf8(base);
    assert(b == eb + tb);
    assert(tb[0] == 47u8);
    assert(tb.len() >= 1);
    assert(b[0] == 47 && b[1] == 109 && b[2] == 110 && b[3] == 116 && b[4] == 47);
    assert(b[5] == l as u8);
    assert(b[6] == 47);
    assert(mount_at(b, 0));
    assert forall|k: int| 7 <= k && #[trigger] mount_at(b, k) implies (forall|w: int|
        7 <= w < k ==> !is_space_byte(#[trigger] b[w])) by {
        assert forall|w: int| 7 <= w < k implies !is_space_byte(#[trigger] b[w]) by {
            assert(b[w] == tb[w - 6]);
            assert(b[k + 1] == tb[k - 5] && b[k + 2] == tb[k - 4] && b[k + 3] == tb[k - 3]);
            assert(b[k] == tb[k - 6] && b[k + 4] == tb[k - 2] && b[k + 5] == tb[k - 1] && b[k + 6] == tb[k]);
            assert(mount_at(tb, k - 6));
            if is_space_byte(b[w]) {
                assert(is_space_byte(tb[w - 6]) && mount_at(tb, k - 6));
                assert(mount_after_blank(tb));
            }
        }
    }
    lemma_copied_unchanged(b, 7, true);
    let r = seq![b[5], 58u8, 47u8] + b.subrange(7, b.len() as int);
    assert(host_text(b) == r);
    let hb = encode_utf8(h);
    assert(hb == encode_utf8(h2) + tb);
    assert(r.len() == hb.len());
    assert forall|i: int| 0 <= i < r.len() implies r[i] == hb[i] by {
        if i >= 2 {
            assert(hb[i] == tb[i - 2]);
        }
        if i >= 3 {
            assert(r[i] == b[i + 4]);
        }
    }
    assert(r == hb);
}

} // verus!
